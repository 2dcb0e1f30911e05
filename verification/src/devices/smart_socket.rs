//! A controllable power outlet: on or off, with a rated and a current
//! draw.

use vstd::prelude::*;

use crate::units::watts::watts_text;
use crate::units::Watts;

verus! {

/// The outlet model a controller keeps: whether power flows, the rated
/// draw, and the current draw.
#[derive(Debug, Clone, Copy, PartialEq, Eq, Structural)]
pub struct SmartSocket {
    is_active: bool,
    power_rating: Watts,
    current_power: Watts,
}

/// The line a socket reports, as in
/// `Smart Socket: ACTIVE | Power: 1500.0W (Rated: 1500.0W)`.
pub open spec fn socket_report(s: SmartSocket) -> Seq<char> {
    "Smart Socket: "@ + (if s.spec_is_active() {
        "ACTIVE"@
    } else {
        "INACTIVE"@
    }) + " | Power: "@ + watts_text(s.spec_current_power().spec_value()) + " (Rated: "@
        + watts_text(s.spec_power_rating().spec_value()) + ")"@
}

impl SmartSocket {
    pub closed spec fn spec_is_active(&self) -> bool {
        self.is_active
    }

    pub closed spec fn spec_power_rating(&self) -> Watts {
        self.power_rating
    }

    pub closed spec fn spec_current_power(&self) -> Watts {
        self.current_power
    }

    pub open spec fn wf(&self) -> bool {
        &&& self.spec_power_rating().wf()
        &&& self.spec_current_power().wf()
    }

    /// Invariant of an outlet driven only through `turn_on`/`turn_off`:
    /// it draws its rating when on and nothing when off.
    pub open spec fn draws_rated(&self) -> bool {
        self.spec_current_power().spec_value() == if self.spec_is_active() {
            self.spec_power_rating().spec_value()
        } else {
            0
        }
    }

    /// A new outlet: off, drawing nothing.
    pub fn new(power_rating: Watts) -> (r: SmartSocket)
        requires
            power_rating.wf(),
        ensures
            !r.spec_is_active(),
            r.spec_power_rating() == power_rating,
            r.spec_current_power().spec_value() == 0,
            r.wf(),
            r.draws_rated(),
    {
        SmartSocket { is_active: false, power_rating, current_power: Watts::new(0) }
    }

    /// Starts feeding power: the draw becomes the rated draw.
    pub fn turn_on(&mut self)
        ensures
            final(self).spec_is_active(),
            final(self).spec_power_rating() == old(self).spec_power_rating(),
            final(self).spec_current_power() == old(self).spec_power_rating(),
            final(self).draws_rated(),
            old(self).wf() ==> final(self).wf(),
    {
        self.is_active = true;
        self.current_power = self.power_rating;
    }

    /// Cuts power: the draw becomes zero.
    pub fn turn_off(&mut self)
        ensures
            !final(self).spec_is_active(),
            final(self).spec_power_rating() == old(self).spec_power_rating(),
            final(self).spec_current_power().spec_value() == 0,
            final(self).draws_rated(),
            old(self).wf() ==> final(self).wf(),
    {
        self.is_active = false;
        self.current_power = Watts::new(0);
    }

    pub fn is_active(&self) -> (r: bool)
        ensures
            r == self.spec_is_active(),
    {
        self.is_active
    }

    pub fn current_power(&self) -> (r: Watts)
        ensures
            r == self.spec_current_power(),
    {
        self.current_power
    }

    pub fn power_rating(&self) -> (r: Watts)
        ensures
            r == self.spec_power_rating(),
    {
        self.power_rating
    }

    /// Overrides the reported draw (used when mirroring a remote
    /// outlet whose draw is told, not derived).
    pub fn set_current_power(&mut self, power: Watts)
        ensures
            final(self).spec_current_power() == power,
            final(self).spec_is_active() == old(self).spec_is_active(),
            final(self).spec_power_rating() == old(self).spec_power_rating(),
    {
        self.current_power = power;
    }

    /// The outlet's report line.
    pub fn report(&self) -> (r: String)
        requires
            self.wf(),
        ensures
            r@ == socket_report(*self),
    {
        let mut out = String::new();
        out.append("Smart Socket: ");
        if self.is_active {
            out.append("ACTIVE");
        } else {
            out.append("INACTIVE");
        }
        out.append(" | Power: ");
        let cur = self.current_power.text();
        out.append(cur.as_str());
        out.append(" (Rated: ");
        let rated = self.power_rating.text();
        out.append(rated.as_str());
        out.append(")");
        proof {
            assert(out@ =~= socket_report(*self));
        }
        out
    }
}

} // verus!
