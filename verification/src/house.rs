//! The home itself: rooms by name, with direct paths to any device or
//! controller, and the whole-house report.

use vstd::prelude::*;

use crate::controllers::DeviceController;
use crate::devices::Device;
use crate::room::{controller_line, device_line, Room};
use crate::table::{lemma_assoc_index_found, StrMap};
use crate::text::joined_lines;

verus! {

/// Failures of the name lookup paths.
#[derive(Debug, Clone, PartialEq)]
pub enum SmartHouseError {
    /// No room stands under the given name.
    RoomNotFound(String),
    /// The room stands, but holds nothing under the given name.
    DeviceNotFound(String, String),
}

/// The lines a room's report contributes, devices first.
pub open spec fn room_lines(room: Room) -> Seq<Seq<char>> {
    Seq::new(
        room.spec_devices().spec_entries().len(),
        |i: int|
            device_line(
                room.spec_devices().spec_entries()[i].0@,
                room.spec_devices().spec_entries()[i].1,
            ),
    ) + Seq::new(
        room.spec_controllers().spec_entries().len(),
        |i: int|
            controller_line(
                room.spec_controllers().spec_entries()[i].0@,
                room.spec_controllers().spec_entries()[i].1,
            ),
    )
}

/// The block a room contributes to the house report: a heading, then
/// the room's lines indented.
pub open spec fn room_block(key: Seq<char>, room: Room) -> Seq<Seq<char>> {
    seq!["Room: "@ + key] + room_lines(room).map_values(|l: Seq<char>| "  "@ + l)
}

/// The house report: the rooms' blocks, in place order.
pub open spec fn house_lines(entries: Seq<(String, Room)>) -> Seq<Seq<char>>
    decreases entries.len(),
{
    if entries.len() == 0 {
        Seq::empty()
    } else {
        room_block(entries[0].0@, entries[0].1) + house_lines(entries.skip(1))
    }
}

/// Extending the rooms by one extends the report by one block.
proof fn lemma_house_lines_push(entries: Seq<(String, Room)>, e: (String, Room))
    ensures
        house_lines(entries.push(e)) == house_lines(entries) + room_block(e.0@, e.1),
    decreases entries.len(),
{
    if entries.len() == 0 {
        assert(entries.push(e)[0] == e);
        assert(entries.push(e).skip(1) =~= Seq::<(String, Room)>::empty());
        assert(house_lines(entries.push(e).skip(1)) =~= Seq::<Seq<char>>::empty());
        assert(house_lines(entries.push(e)) =~= room_block(e.0@, e.1));
    } else {
        lemma_house_lines_push(entries.skip(1), e);
        assert(entries.push(e).skip(1) =~= entries.skip(1).push(e));
        assert(entries.push(e)[0] == entries[0]);
        assert(house_lines(entries.push(e)) =~= house_lines(entries) + room_block(e.0@, e.1));
    }
}

/// Mapping to views commutes with appending one line.
proof fn lemma_map_view_push(v: Seq<String>, x: String)
    ensures
        (v.push(x)).map_values(|s: String| s@) == v.map_values(|s: String| s@).push(x@),
{
    let a = (v.push(x)).map_values(|s: String| s@);
    let b = v.map_values(|s: String| s@).push(x@);
    assert forall|k: int| 0 <= k < a.len() implies a[k] == b[k] by {
        assert(a[k] == v.push(x)[k]@);
        if k < v.len() {
            assert(v.push(x)[k] == v[k]);
        } else {
            assert(v.push(x)[k] == x);
        }
    }
    assert(a =~= b);
}

/// The home: rooms by name.
pub struct SmartHouse {
    rooms: StrMap<Room>,
}

impl SmartHouse {
    pub closed spec fn spec_rooms(&self) -> StrMap<Room> {
        self.rooms
    }

    pub open spec fn wf(&self) -> bool {
        &&& self.spec_rooms().wf()
        &&& forall|i: int|
            0 <= i < self.spec_rooms().spec_entries().len()
                ==> (#[trigger] self.spec_rooms().spec_entries()[i].1).wf()
    }

    /// Every filed item of every room can report itself.
    pub open spec fn reportable(&self) -> bool {
        forall|i: int|
            0 <= i < self.spec_rooms().spec_entries().len()
                ==> (#[trigger] self.spec_rooms().spec_entries()[i].1).reportable()
    }

    /// A house over an existing room registry.
    pub fn new(rooms: StrMap<Room>) -> (r: SmartHouse)
        requires
            rooms.wf(),
            forall|i: int|
                0 <= i < rooms.spec_entries().len() ==> (#[trigger] rooms.spec_entries()[i].1).wf(),
        ensures
            r.spec_rooms() == rooms,
            r.wf(),
    {
        SmartHouse { rooms }
    }


    /// The room under `key`, if any.
    pub fn room<'a>(&'a self, key: &str) -> (r: Option<&'a Room>)
        ensures
            match r {
                Some(room) => self.spec_rooms().spec_get(key@) == Some(*room),
                None => self.spec_rooms().spec_get(key@) is None,
            },
    {
        self.rooms.get(key)
    }

    /// Mutable access to the room under `key`, if any.
    pub fn room_mut<'a>(&'a mut self, key: &str) -> (r: Option<&'a mut Room>)
        requires
            old(self).wf(),
        ensures
            final(self).spec_rooms().wf(),
            r is None ==> old(self).spec_rooms().spec_get(key@) is None && final(self).spec_rooms().spec_entries() == old(self).spec_rooms().spec_entries(),
            r is Some ==> match old(self).spec_rooms().spec_index_of(key@) {
                Some(i) => *r.unwrap() == old(self).spec_rooms().spec_entries()[i].1 && final(self).spec_rooms().spec_entries() == old(self).spec_rooms().spec_entries().update(
                    i,
                    (old(self).spec_rooms().spec_entries()[i].0, *final(r.unwrap())),
                ),
                None => false,
            },
    {
        self.rooms.get_mut(key)
    }

    /// Files a room under `key`, replacing any previous one.
    pub fn add_room(&mut self, key: &str, room: Room)
        requires
            old(self).wf(),
            room.wf(),
        ensures
            final(self).wf(),
            final(self).spec_rooms().spec_contains(key@),
            final(self).spec_rooms().spec_get(key@) == Some(room),
            !old(self).spec_rooms().spec_contains(key@) ==> final(self).spec_rooms().spec_entries().len() == old(self).spec_rooms().spec_entries().len() + 1,
            old(self).spec_rooms().spec_contains(key@) ==> final(self).spec_rooms().spec_entries().len() == old(self).spec_rooms().spec_entries().len(),
            forall|k: Seq<char>|
                k != key@ ==> #[trigger] final(self).spec_rooms().spec_contains(k) == old(self).spec_rooms().spec_contains(k),
    {
        let ghost pre = self.spec_rooms().spec_entries();
        self.rooms.insert(key, room);
        proof {
            lemma_assoc_index_found(pre, key@);
            assert forall|i: int|
                0 <= i < self.spec_rooms().spec_entries().len() implies (
            #[trigger] self.spec_rooms().spec_entries()[i].1).wf() by {
                match crate::table::assoc_index(pre, key@) {
                    Some(w) => {
                        if i != w {
                            assert(self.spec_rooms().spec_entries()[i] == pre[i]);
                        }
                    },
                    None => {
                        if i < pre.len() {
                            assert(self.spec_rooms().spec_entries()[i] == pre[i]);
                        } else {
                            assert(self.spec_rooms().spec_entries().last().1 == room);
                        }
                    },
                }
            }
        }
    }

    /// Takes the room under `key` out of the house, if any.
    pub fn remove_room(&mut self, key: &str) -> (r: Option<Room>)
        requires
            old(self).wf(),
        ensures
            final(self).wf(),
            !final(self).spec_rooms().spec_contains(key@),
            r == old(self).spec_rooms().spec_get(key@),
            old(self).spec_rooms().spec_contains(key@) ==> final(self).spec_rooms().spec_entries().len() == old(self).spec_rooms().spec_entries().len() - 1,
            !old(self).spec_rooms().spec_contains(key@) ==> final(self).spec_rooms().spec_entries() == old(self).spec_rooms().spec_entries(),
            forall|k: Seq<char>|
                k != key@ ==> #[trigger] final(self).spec_rooms().spec_contains(k) == old(self).spec_rooms().spec_contains(k),
    {
        let ghost pre = self.spec_rooms().spec_entries();
        let r = self.rooms.remove(key);
        proof {
            lemma_assoc_index_found(pre, key@);
            match crate::table::assoc_index(pre, key@) {
                Some(w) => {
                    assert forall|i: int|
                        0 <= i < self.spec_rooms().spec_entries().len() implies (
                    #[trigger] self.spec_rooms().spec_entries()[i].1).wf() by {
                        if i < w {
                            assert(self.spec_rooms().spec_entries()[i] == pre[i]);
                        } else {
                            assert(self.spec_rooms().spec_entries()[i] == pre[i + 1]);
                        }
                    }
                },
                None => {},
            }
        }
        r
    }

    /// The device under `device_key` in the room under `room_key`.
    pub fn device<'a>(&'a self, room_key: &str, device_key: &str) -> (r: Result<
        &'a Device,
        SmartHouseError,
    >)
        ensures
            match r {
                Ok(d) => match self.spec_rooms().spec_get(room_key@) {
                    Some(room) => room.spec_devices().spec_get(device_key@) == Some(*d),
                    None => false,
                },
                Err(SmartHouseError::RoomNotFound(k)) => k@ == room_key@ && self.spec_rooms(
                ).spec_get(room_key@) is None,
                Err(SmartHouseError::DeviceNotFound(a, b)) => a@ == room_key@ && b@ == device_key@
                    && match self.spec_rooms().spec_get(room_key@) {
                    Some(room) => room.spec_devices().spec_get(device_key@) is None,
                    None => false,
                },
            },
    {
        match self.rooms.get(room_key) {
            Some(room) => match room.device(device_key) {
                Some(d) => Ok(d),
                None => Err(
                    SmartHouseError::DeviceNotFound(room_key.to_owned(), device_key.to_owned()),
                ),
            },
            None => Err(SmartHouseError::RoomNotFound(room_key.to_owned())),
        }
    }

    /// The controller under `controller_key` in the room under
    /// `room_key`.
    pub fn controller<'a>(&'a self, room_key: &str, controller_key: &str) -> (r: Result<
        &'a DeviceController,
        SmartHouseError,
    >)
        ensures
            match r {
                Ok(c) => match self.spec_rooms().spec_get(room_key@) {
                    Some(room) => room.spec_controllers().spec_get(controller_key@) == Some(*c),
                    None => false,
                },
                Err(SmartHouseError::RoomNotFound(k)) => k@ == room_key@ && self.spec_rooms(
                ).spec_get(room_key@) is None,
                Err(SmartHouseError::DeviceNotFound(a, b)) => a@ == room_key@ && b@
                    == controller_key@ && match self.spec_rooms().spec_get(room_key@) {
                    Some(room) => room.spec_controllers().spec_get(controller_key@) is None,
                    None => false,
                },
            },
    {
        match self.rooms.get(room_key) {
            Some(room) => match room.controller(controller_key) {
                Some(c) => Ok(c),
                None => Err(
                    SmartHouseError::DeviceNotFound(
                        room_key.to_owned(),
                        controller_key.to_owned(),
                    ),
                ),
            },
            None => Err(SmartHouseError::RoomNotFound(room_key.to_owned())),
        }
    }

    /// Mutable access to the device under `device_key` in the room
    /// under `room_key`.
    pub fn device_mut<'a>(&'a mut self, room_key: &str, device_key: &str) -> (r: Result<
        &'a mut Device,
        SmartHouseError,
    >)
        requires
            old(self).wf(),
        ensures
            final(self).spec_rooms().wf(),
            match r {
                Ok(d) => match old(self).spec_rooms().spec_get(room_key@) {
                    Some(room) => room.spec_devices().spec_get(device_key@) == Some(*d),
                    None => false,
                },
                Err(SmartHouseError::RoomNotFound(k)) => k@ == room_key@ && old(self).spec_rooms(
                ).spec_get(room_key@) is None && final(self).spec_rooms().spec_entries() == old(self).spec_rooms().spec_entries(),
                Err(SmartHouseError::DeviceNotFound(a, b)) => a@ == room_key@ && b@ == device_key@
                    && match old(self).spec_rooms().spec_get(room_key@) {
                    Some(room) => room.spec_devices().spec_get(device_key@) is None,
                    None => false,
                },
            },
    {
        match self.rooms.get_mut(room_key) {
            Some(room) => {
                proof {
                    lemma_assoc_index_found(old(self).spec_rooms().spec_entries(), room_key@);
                }
                match room.device_mut(device_key) {
                    Some(d) => Ok(d),
                    None => Err(
                        SmartHouseError::DeviceNotFound(
                            room_key.to_owned(),
                            device_key.to_owned(),
                        ),
                    ),
                }
            },
            None => Err(SmartHouseError::RoomNotFound(room_key.to_owned())),
        }
    }

    /// Mutable access to the controller under `controller_key` in the
    /// room under `room_key`.
    pub fn controller_mut<'a>(&'a mut self, room_key: &str, controller_key: &str) -> (r: Result<
        &'a mut DeviceController,
        SmartHouseError,
    >)
        requires
            old(self).wf(),
        ensures
            final(self).spec_rooms().wf(),
            match r {
                Ok(c) => match old(self).spec_rooms().spec_get(room_key@) {
                    Some(room) => room.spec_controllers().spec_get(controller_key@) == Some(*c),
                    None => false,
                },
                Err(SmartHouseError::RoomNotFound(k)) => k@ == room_key@ && old(self).spec_rooms(
                ).spec_get(room_key@) is None && final(self).spec_rooms().spec_entries() == old(self).spec_rooms().spec_entries(),
                Err(SmartHouseError::DeviceNotFound(a, b)) => a@ == room_key@ && b@
                    == controller_key@ && match old(self).spec_rooms().spec_get(room_key@) {
                    Some(room) => room.spec_controllers().spec_get(controller_key@) is None,
                    None => false,
                },
            },
    {
        match self.rooms.get_mut(room_key) {
            Some(room) => {
                proof {
                    lemma_assoc_index_found(old(self).spec_rooms().spec_entries(), room_key@);
                }
                match room.controller_mut(controller_key) {
                    Some(c) => Ok(c),
                    None => Err(
                        SmartHouseError::DeviceNotFound(
                            room_key.to_owned(),
                            controller_key.to_owned(),
                        ),
                    ),
                }
            },
            None => Err(SmartHouseError::RoomNotFound(room_key.to_owned())),
        }
    }

    pub fn rooms_count(&self) -> (r: usize)
        ensures
            r == self.spec_rooms().spec_entries().len(),
    {
        self.rooms.len()
    }

    pub fn rooms_keys(&self) -> (r: Vec<String>)
        ensures
            r@.len() == self.spec_rooms().spec_entries().len(),
            forall|i: int|
                0 <= i < r@.len() ==> #[trigger] r@[i]@ == self.spec_rooms().spec_entries()[i].0@,
    {
        self.rooms.keys()
    }

    /// The whole-house report: for each room a heading and its lines,
    /// indented.
    pub fn report_lines(&self) -> (r: Vec<String>)
        requires
            self.reportable(),
        ensures
            r@.map_values(|s: String| s@) == house_lines(self.spec_rooms().spec_entries()),
    {
        let mut out: Vec<String> = Vec::new();
        let n = self.rooms.len();
        let mut i: usize = 0;
        while i < n
            invariant
                self.reportable(),
                n == self.spec_rooms().spec_entries().len(),
                0 <= i <= n,
                out@.map_values(|s: String| s@) == house_lines(
                    self.spec_rooms().spec_entries().take(i as int),
                ),
            decreases n - i,
        {
            let entry = self.rooms.entry_at(i);
            let ghost pre_block = out@.map_values(|s: String| s@);
            let mut heading = String::new();
            heading.append("Room: ");
            heading.append(entry.0.as_str());
            let ghost out_before = out@;
            out.push(heading);
            proof {
                lemma_map_view_push(out_before, out@.last());
                assert(out@.map_values(|s: String| s@) =~= pre_block + seq![
                    "Room: "@ + self.spec_rooms().spec_entries()[i as int].0@,
                ]);
            }
            let lines = entry.1.report_lines();
            let ghost inner = room_lines(*entry.1);
            proof {
                let nd = entry.1.spec_devices().spec_entries().len() as int;
                assert(inner.len() == lines@.len());
                assert forall|w: int| 0 <= w < lines@.len() implies #[trigger] lines@[w]@
                    == inner[w] by {
                    if w < nd {
                        assert(inner[w] == device_line(
                            entry.1.spec_devices().spec_entries()[w].0@,
                            entry.1.spec_devices().spec_entries()[w].1,
                        ));
                    } else {
                        assert(inner[w] == controller_line(
                            entry.1.spec_controllers().spec_entries()[w - nd].0@,
                            entry.1.spec_controllers().spec_entries()[w - nd].1,
                        ));
                    }
                }
            }
            let m = lines.len();
            let mut j: usize = 0;
            while j < m
                invariant
                    m == lines@.len(),
                    m == inner.len(),
                    0 <= j <= m,
                    forall|w: int| 0 <= w < m ==> #[trigger] lines@[w]@ == inner[w],
                    out@.map_values(|s: String| s@) =~= pre_block + seq![
                        "Room: "@ + self.spec_rooms().spec_entries()[i as int].0@,
                    ] + inner.map_values(|l: Seq<char>| "  "@ + l).take(j as int),
                decreases m - j,
            {
                let mut line = String::new();
                line.append("  ");
                line.append(lines[j].as_str());
                let ghost out_before = out@;
                let ghost line_view = line@;
                out.push(line);
                proof {
                    lemma_map_view_push(out_before, out@.last());
                    let mapped = inner.map_values(|l: Seq<char>| "  "@ + l);
                    assert(mapped.take(j + 1) =~= mapped.take(j as int).push(mapped[j as int]));
                    assert(mapped[j as int] == "  "@ + inner[j as int]);
                    assert(line_view == "  "@ + inner[j as int]);
                    assert(out@.map_values(|s: String| s@) =~= pre_block + seq![
                        "Room: "@ + self.spec_rooms().spec_entries()[i as int].0@,
                    ] + mapped.take(j + 1));
                }
                j += 1;
            }
            proof {
                let es = self.spec_rooms().spec_entries();
                let mapped = inner.map_values(|l: Seq<char>| "  "@ + l);
                assert(mapped.take(m as int) =~= mapped);
                assert(inner == room_lines(es[i as int].1)) by {
                    assert(*entry.1 == es[i as int].1);
                }
                assert(es.take(i + 1) =~= es.take(i as int).push(es[i as int]));
                lemma_house_lines_push(es.take(i as int), es[i as int]);
                assert(room_block(es[i as int].0@, es[i as int].1) =~= seq![
                    "Room: "@ + es[i as int].0@,
                ] + mapped);
                assert(out@.map_values(|s: String| s@) =~= house_lines(es.take(i + 1)));
            }
            i += 1;
        }
        proof {
            assert(self.spec_rooms().spec_entries().take(n as int) =~= self.spec_rooms(
            ).spec_entries());
        }
        out
    }

    /// The report lines as one text, line breaks between them.
    pub fn report(&self) -> (r: String)
        requires
            self.reportable(),
        ensures
            r@ == joined_lines(house_lines(self.spec_rooms().spec_entries())),
    {
        let lines = self.report_lines();
        crate::text::join_lines(&lines)
    }
}

impl Default for SmartHouse {
    /// An empty house.
    fn default() -> (r: SmartHouse)
        ensures
            r.spec_rooms().spec_entries().len() == 0,
            r.wf(),
            r.reportable(),
    {
        SmartHouse { rooms: StrMap::new() }
    }
}

} // verus!
