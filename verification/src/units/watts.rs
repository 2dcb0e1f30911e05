//! Electrical power, counted in hundredths of a watt.

use vstd::prelude::*;

use crate::text::{bytes_chars, lemma_report_text_ascii, report_text, ascii_string, push_report_text, CENTI_LIMIT};

verus! {

/// A nonnegative power in hundredths of a watt, below the range bound
/// of the wire notation.
#[derive(Debug, Clone, Copy, PartialEq, Eq, Structural, PartialOrd)]
pub struct Watts {
    centi: u64,
}

/// The text a power reads as: one rounded fraction digit and the unit,
/// as in `1500.0W`.
pub open spec fn watts_text(c: int) -> Seq<char> {
    bytes_chars(report_text(c)) + "W"@
}

impl Watts {
    /// The power as a plain count of hundredths of a watt.
    pub closed spec fn spec_value(&self) -> int {
        self.centi as int
    }

    pub open spec fn wf(&self) -> bool {
        0 <= self.spec_value() < CENTI_LIMIT
    }

    /// Builds a power from hundredths of a watt; power is never
    /// negative, and must lie within the wire notation's range.
    pub fn new(centi: u64) -> (r: Watts)
        requires
            centi < CENTI_LIMIT,
        ensures
            r.spec_value() == centi,
            r.wf(),
    {
        Watts { centi }
    }

    /// The count of hundredths of a watt.
    pub fn value(&self) -> (r: u64)
        ensures
            r == self.spec_value(),
    {
        self.centi
    }

    /// Exact sum.
    pub fn plus(self, rhs: Watts) -> (r: Watts)
        requires
            self.spec_value() + rhs.spec_value() < CENTI_LIMIT,
        ensures
            r.spec_value() == self.spec_value() + rhs.spec_value(),
    {
        Watts { centi: self.centi + rhs.centi }
    }

    /// Difference, held at zero when the subtrahend is larger: power
    /// never goes negative.
    pub fn minus(self, rhs: Watts) -> (r: Watts)
        ensures
            r.spec_value() == if self.spec_value() >= rhs.spec_value() {
                self.spec_value() - rhs.spec_value()
            } else {
                0
            },
    {
        if self.centi >= rhs.centi {
            Watts { centi: self.centi - rhs.centi }
        } else {
            Watts { centi: 0 }
        }
    }

    /// Exact product with a plain factor.
    pub fn times(self, k: u64) -> (r: Watts)
        requires
            self.spec_value() * k < CENTI_LIMIT,
        ensures
            r.spec_value() == self.spec_value() * k,
    {
        Watts { centi: self.centi * k }
    }

    /// Quotient by a plain divisor, truncated to a whole count of
    /// hundredths. Dividing by zero is not accepted.
    pub fn divided_by(self, k: u64) -> (r: Watts)
        requires
            k != 0,
        ensures
            r.spec_value() == self.spec_value() / k as int,
    {
        Watts { centi: self.centi / k }
    }

    /// The power as text, rounded to one fraction digit.
    pub fn text(&self) -> (r: String)
        requires
            self.wf(),
        ensures
            r@ == watts_text(self.spec_value()),
    {
        let mut v: Vec<u8> = Vec::new();
        push_report_text(&mut v, self.centi as i64);
        proof {
            lemma_report_text_ascii(self.centi as int);
        }
        let s = ascii_string(v);
        s.concat("W")
    }
}

} // verus!
