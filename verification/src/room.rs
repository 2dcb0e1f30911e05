//! A room: devices and controllers, each under a name of its own.

use vstd::prelude::*;

use crate::controllers::DeviceController;
use crate::devices::{device_report, Device};
use crate::table::{lemma_assoc_index_found, StrMap};
use crate::text::joined_lines;

verus! {

/// A room's registries: devices and controllers by name.
pub struct Room {
    devices: StrMap<Device>,
    controllers: StrMap<DeviceController>,
}

/// One item to file in a room, of either registry.
pub enum RoomItem {
    Device(Device),
    Controller(DeviceController),
}

impl From<Device> for RoomItem {
    fn from(device: Device) -> (r: RoomItem) {
        RoomItem::Device(device)
    }
}

impl vstd::std_specs::convert::FromSpecImpl<Device> for RoomItem {
    open spec fn obeys_from_spec() -> bool {
        true
    }

    open spec fn from_spec(device: Device) -> RoomItem {
        RoomItem::Device(device)
    }
}

impl From<DeviceController> for RoomItem {
    fn from(controller: DeviceController) -> (r: RoomItem) {
        RoomItem::Controller(controller)
    }
}

impl vstd::std_specs::convert::FromSpecImpl<DeviceController> for RoomItem {
    open spec fn obeys_from_spec() -> bool {
        true
    }

    open spec fn from_spec(controller: DeviceController) -> RoomItem {
        RoomItem::Controller(controller)
    }
}

/// The line a room's report writes for one device.
pub open spec fn device_line(key: Seq<char>, d: Device) -> Seq<char> {
    "[Device:"@ + key + "] "@ + device_report(d)
}

/// The line a room's report writes for one controller.
pub open spec fn controller_line(key: Seq<char>, c: DeviceController) -> Seq<char> {
    "[Controller:"@ + key + "] "@ + match c {
        DeviceController::Socket(s) => crate::devices::socket_report(s.spec_socket()),
        DeviceController::Therm(t) => crate::devices::therm_report(t.spec_therm()),
    }
}

impl Room {
    pub closed spec fn spec_devices(&self) -> StrMap<Device> {
        self.devices
    }

    pub closed spec fn spec_controllers(&self) -> StrMap<DeviceController> {
        self.controllers
    }

    pub open spec fn wf(&self) -> bool {
        &&& self.spec_devices().wf()
        &&& self.spec_controllers().wf()
    }

    /// Every filed item can report itself.
    pub open spec fn reportable(&self) -> bool {
        &&& forall|i: int|
            0 <= i < self.spec_devices().spec_entries().len()
                ==> (#[trigger] self.spec_devices().spec_entries()[i].1).wf()
        &&& forall|i: int|
            0 <= i < self.spec_controllers().spec_entries().len()
                ==> (#[trigger] self.spec_controllers().spec_entries()[i].1).wf()
    }

    /// An empty room.
    pub fn new() -> (r: Room)
        ensures
            r.spec_devices().spec_entries().len() == 0,
            r.spec_controllers().spec_entries().len() == 0,
            r.wf(),
            r.reportable(),
    {
        Room { devices: StrMap::new(), controllers: StrMap::new() }
    }

    /// The device under `key`, if any.
    pub fn device<'a>(&'a self, key: &str) -> (r: Option<&'a Device>)
        ensures
            match r {
                Some(d) => self.spec_devices().spec_get(key@) == Some(*d),
                None => self.spec_devices().spec_get(key@) is None,
            },
    {
        self.devices.get(key)
    }

    /// Mutable access to the device under `key`, if any.
    pub fn device_mut<'a>(&'a mut self, key: &str) -> (r: Option<&'a mut Device>)
        requires
            old(self).wf(),
        ensures
            final(self).wf(),
            final(self).spec_controllers() == old(self).spec_controllers(),
            r is None ==> old(self).spec_devices().spec_get(key@) is None && final(self).spec_devices().spec_entries() == old(self).spec_devices().spec_entries(),
            r is Some ==> match old(self).spec_devices().spec_index_of(key@) {
                Some(i) => *r.unwrap() == old(self).spec_devices().spec_entries()[i].1 && final(self).spec_devices().spec_entries() == old(self).spec_devices().spec_entries().update(
                    i,
                    (old(self).spec_devices().spec_entries()[i].0, *final(r.unwrap())),
                ),
                None => false,
            },
    {
        self.devices.get_mut(key)
    }

    /// Files a device under `key`, replacing any previous one.
    pub fn add_device(&mut self, key: &str, device: Device)
        requires
            old(self).wf(),
        ensures
            final(self).wf(),
            final(self).spec_controllers() == old(self).spec_controllers(),
            final(self).spec_devices().spec_contains(key@),
            final(self).spec_devices().spec_get(key@) == Some(device),
            old(self).spec_devices().spec_contains(key@) ==> final(self).spec_devices().spec_entries().len() == old(self).spec_devices().spec_entries().len(),
            !old(self).spec_devices().spec_contains(key@) ==> final(self).spec_devices().spec_entries().len() == old(self).spec_devices().spec_entries().len() + 1,
            forall|k: Seq<char>|
                k != key@ ==> #[trigger] final(self).spec_devices().spec_contains(k) == old(self).spec_devices().spec_contains(k),
    {
        self.devices.insert(key, device);
    }

    /// Takes the device under `key` out of the room, if any.
    pub fn remove_device(&mut self, key: &str) -> (r: Option<Device>)
        requires
            old(self).wf(),
        ensures
            final(self).wf(),
            final(self).spec_controllers() == old(self).spec_controllers(),
            !final(self).spec_devices().spec_contains(key@),
            r == old(self).spec_devices().spec_get(key@),
            old(self).spec_devices().spec_contains(key@) ==> final(self).spec_devices().spec_entries().len() == old(self).spec_devices().spec_entries().len()
                - 1,
            !old(self).spec_devices().spec_contains(key@) ==> final(self).spec_devices().spec_entries() == old(self).spec_devices().spec_entries(),
            forall|k: Seq<char>|
                k != key@ ==> #[trigger] final(self).spec_devices().spec_contains(k) == old(self).spec_devices().spec_contains(k),
    {
        let r = self.devices.remove(key);
        proof {
            lemma_assoc_index_found(old(self).spec_devices().spec_entries(), key@);
        }
        r
    }

    /// The controller under `key`, if any.
    pub fn controller<'a>(&'a self, key: &str) -> (r: Option<&'a DeviceController>)
        ensures
            match r {
                Some(c) => self.spec_controllers().spec_get(key@) == Some(*c),
                None => self.spec_controllers().spec_get(key@) is None,
            },
    {
        self.controllers.get(key)
    }

    /// Mutable access to the controller under `key`, if any.
    pub fn controller_mut<'a>(&'a mut self, key: &str) -> (r: Option<&'a mut DeviceController>)
        requires
            old(self).wf(),
        ensures
            final(self).wf(),
            final(self).spec_devices() == old(self).spec_devices(),
            r is None ==> old(self).spec_controllers().spec_get(key@) is None && final(self).spec_controllers().spec_entries() == old(self).spec_controllers().spec_entries(),
            r is Some ==> match old(self).spec_controllers().spec_index_of(key@) {
                Some(i) => *r.unwrap() == old(self).spec_controllers().spec_entries()[i].1
                    && final(self).spec_controllers().spec_entries() == old(self).spec_controllers().spec_entries().update(
                    i,
                    (old(self).spec_controllers().spec_entries()[i].0, *final(r.unwrap())),
                ),
                None => false,
            },
    {
        self.controllers.get_mut(key)
    }

    /// Files a controller under `key`, replacing any previous one.
    pub fn add_controller(&mut self, key: &str, controller: DeviceController)
        requires
            old(self).wf(),
        ensures
            final(self).wf(),
            final(self).spec_devices() == old(self).spec_devices(),
            final(self).spec_controllers().spec_contains(key@),
            final(self).spec_controllers().spec_get(key@) == Some(controller),
            forall|k: Seq<char>|
                k != key@ ==> #[trigger] final(self).spec_controllers().spec_contains(k) == old(self).spec_controllers().spec_contains(k),
    {
        self.controllers.insert(key, controller);
    }

    /// Takes the controller under `key` out of the room, if any.
    pub fn remove_controller(&mut self, key: &str) -> (r: Option<DeviceController>)
        requires
            old(self).wf(),
        ensures
            final(self).wf(),
            final(self).spec_devices() == old(self).spec_devices(),
            !final(self).spec_controllers().spec_contains(key@),
            r == old(self).spec_controllers().spec_get(key@),
            forall|k: Seq<char>|
                k != key@ ==> #[trigger] final(self).spec_controllers().spec_contains(k) == old(self).spec_controllers().spec_contains(k),
    {
        let r = self.controllers.remove(key);
        proof {
            lemma_assoc_index_found(old(self).spec_controllers().spec_entries(), key@);
        }
        r
    }

    /// Files any one item under `key`, in the registry of its kind.
    pub fn add_item(&mut self, key: &str, item: RoomItem)
        requires
            old(self).wf(),
        ensures
            final(self).wf(),
            match item {
                RoomItem::Device(d) => final(self).spec_devices().spec_get(key@) == Some(d)
                    && final(self).spec_controllers() == old(self).spec_controllers(),
                RoomItem::Controller(c) => final(self).spec_controllers().spec_get(key@) == Some(
                    c,
                ) && final(self).spec_devices() == old(self).spec_devices(),
            },
    {
        match item {
            RoomItem::Device(device) => self.add_device(key, device),
            RoomItem::Controller(controller) => self.add_controller(key, controller),
        }
    }

    pub fn devices_count(&self) -> (r: usize)
        ensures
            r == self.spec_devices().spec_entries().len(),
    {
        self.devices.len()
    }

    pub fn devices_keys(&self) -> (r: Vec<String>)
        ensures
            r@.len() == self.spec_devices().spec_entries().len(),
            forall|i: int|
                0 <= i < r@.len() ==> #[trigger] r@[i]@
                    == self.spec_devices().spec_entries()[i].0@,
    {
        self.devices.keys()
    }

    pub fn controllers_count(&self) -> (r: usize)
        ensures
            r == self.spec_controllers().spec_entries().len(),
    {
        self.controllers.len()
    }

    pub fn controllers_keys(&self) -> (r: Vec<String>)
        ensures
            r@.len() == self.spec_controllers().spec_entries().len(),
            forall|i: int|
                0 <= i < r@.len() ==> #[trigger] r@[i]@
                    == self.spec_controllers().spec_entries()[i].0@,
    {
        self.controllers.keys()
    }

    pub fn items_count(&self) -> (r: usize)
        requires
            self.spec_devices().spec_entries().len()
                + self.spec_controllers().spec_entries().len() <= usize::MAX,
        ensures
            r == self.spec_devices().spec_entries().len()
                + self.spec_controllers().spec_entries().len(),
    {
        self.devices.len() + self.controllers.len()
    }

    /// Every name in the room: device names, then controller names.
    pub fn keys(&self) -> (r: Vec<String>)
        ensures
            r@.len() == self.spec_devices().spec_entries().len()
                + self.spec_controllers().spec_entries().len(),
            forall|i: int|
                0 <= i < self.spec_devices().spec_entries().len() ==> #[trigger] r@[i]@
                    == self.spec_devices().spec_entries()[i].0@,
            forall|i: int|
                self.spec_devices().spec_entries().len() <= i < r@.len() ==> #[trigger] r@[i]@
                    == self.spec_controllers().spec_entries()[i - self.spec_devices().spec_entries().len()].0@,
    {
        let mut out = self.devices.keys();
        let mut more = self.controllers.keys();
        let ghost first = out@;
        out.append(&mut more);
        proof {
            assert(forall|i: int|
                0 <= i < first.len() ==> #[trigger] out@[i] == first[i]);
        }
        out
    }

    /// The room's report: one line per device, then one per
    /// controller.
    pub fn report_lines(&self) -> (r: Vec<String>)
        requires
            self.reportable(),
        ensures
            r@.len() == self.spec_devices().spec_entries().len()
                + self.spec_controllers().spec_entries().len(),
            forall|i: int|
                0 <= i < self.spec_devices().spec_entries().len() ==> #[trigger] r@[i]@
                    == device_line(
                    self.spec_devices().spec_entries()[i].0@,
                    self.spec_devices().spec_entries()[i].1,
                ),
            forall|i: int|
                self.spec_devices().spec_entries().len() <= i < r@.len() ==> #[trigger] r@[i]@
                    == controller_line(
                    self.spec_controllers().spec_entries()[i - self.spec_devices().spec_entries().len()].0@,
                    self.spec_controllers().spec_entries()[i - self.spec_devices().spec_entries().len()].1,
                ),
    {
        let mut out: Vec<String> = Vec::new();
        let nd = self.devices.len();
        let mut i: usize = 0;
        while i < nd
            invariant
                self.reportable(),
                nd == self.spec_devices().spec_entries().len(),
                0 <= i <= nd,
                out@.len() == i,
                forall|j: int|
                    0 <= j < i ==> #[trigger] out@[j]@ == device_line(
                        self.spec_devices().spec_entries()[j].0@,
                        self.spec_devices().spec_entries()[j].1,
                    ),
            decreases nd - i,
        {
            let entry = self.devices.entry_at(i);
            let mut line = String::new();
            line.append("[Device:");
            line.append(entry.0.as_str());
            line.append("] ");
            let body = entry.1.report();
            line.append(body.as_str());
            out.push(line);
            i += 1;
        }
        let nc = self.controllers.len();
        let mut i2: usize = 0;
        while i2 < nc
            invariant
                self.reportable(),
                nd == self.spec_devices().spec_entries().len(),
                nc == self.spec_controllers().spec_entries().len(),
                0 <= i2 <= nc,
                out@.len() == nd + i2,
                forall|j: int|
                    0 <= j < nd ==> #[trigger] out@[j]@ == device_line(
                        self.spec_devices().spec_entries()[j].0@,
                        self.spec_devices().spec_entries()[j].1,
                    ),
                forall|j: int|
                    nd <= j < nd + i2 ==> #[trigger] out@[j]@ == controller_line(
                        self.spec_controllers().spec_entries()[j - nd].0@,
                        self.spec_controllers().spec_entries()[j - nd].1,
                    ),
            decreases nc - i2,
        {
            let entry = self.controllers.entry_at(i2);
            let mut line = String::new();
            line.append("[Controller:");
            line.append(entry.0.as_str());
            line.append("] ");
            let body = entry.1.report();
            line.append(body.as_str());
            out.push(line);
            i2 += 1;
        }
        out
    }

    /// The report lines as one text, line breaks between them.
    pub fn report(&self) -> (r: String)
        requires
            self.reportable(),
        ensures
            exists|lines: Seq<Seq<char>>|
                #![auto]
                r@ == joined_lines(lines) && lines.len() == self.spec_devices().spec_entries().len()
                    + self.spec_controllers().spec_entries().len() && (forall|i: int|
                    0 <= i < self.spec_devices().spec_entries().len() ==> lines[i] == device_line(
                        self.spec_devices().spec_entries()[i].0@,
                        self.spec_devices().spec_entries()[i].1,
                    )) && (forall|i: int|
                    self.spec_devices().spec_entries().len() <= i < lines.len() ==> lines[i]
                        == controller_line(
                        self.spec_controllers().spec_entries()[i - self.spec_devices().spec_entries().len()].0@,
                        self.spec_controllers().spec_entries()[i - self.spec_devices().spec_entries().len()].1,
                    )),
    {
        let lines = self.report_lines();
        let r = crate::text::join_lines(&lines);
        proof {
            assert(r@ == joined_lines(lines@.map_values(|s: String| s@)));
            assert(lines@.map_values(|s: String| s@).len() == lines@.len());
        }
        r
    }
}

impl Default for Room {
    /// An empty room.
    fn default() -> (r: Room)
        ensures
            r.spec_devices().spec_entries().len() == 0,
            r.spec_controllers().spec_entries().len() == 0,
            r.wf(),
            r.reportable(),
    {
        Room::new()
    }
}

} // verus!
