//! Degrees Celsius, counted in hundredths of a degree.

use vstd::prelude::*;

use crate::text::{bytes_chars, lemma_report_text_ascii, report_text, ascii_string, push_report_text, CENTI_LIMIT};

verus! {

/// Absolute zero, in hundredths of a degree Celsius.
pub const ABSOLUTE_ZERO_CENTI: i64 = -27315;

/// A temperature in hundredths of a degree Celsius.
#[derive(Debug, Clone, Copy, PartialEq, Eq, Structural, PartialOrd)]
pub struct Celsius {
    centi: i64,
}

/// The text a temperature reads as: one rounded fraction digit and the
/// degree sign, as in `22.5°C`.
pub open spec fn celsius_text(c: int) -> Seq<char> {
    bytes_chars(report_text(c)) + "°C"@
}

impl Celsius {
    /// The temperature as a plain count of hundredths of a degree.
    pub closed spec fn spec_value(&self) -> int {
        self.centi as int
    }

    /// A physical temperature: at or above absolute zero, and within
    /// the range the wire notation carries.
    pub open spec fn wf(&self) -> bool {
        ABSOLUTE_ZERO_CENTI <= self.spec_value() < CENTI_LIMIT
    }

    /// Builds a temperature from hundredths of a degree. A value below
    /// absolute zero is no temperature and is not accepted.
    pub fn new(centi: i64) -> (r: Celsius)
        requires
            ABSOLUTE_ZERO_CENTI <= centi < CENTI_LIMIT,
        ensures
            r.spec_value() == centi,
            r.wf(),
    {
        Celsius { centi }
    }

    /// The count of hundredths of a degree.
    pub fn value(&self) -> (r: i64)
        ensures
            r == self.spec_value(),
    {
        self.centi
    }

    /// Exact sum of two temperatures (plain interval arithmetic: the
    /// result is not held to the physical lower bound).
    pub fn plus(self, rhs: Celsius) -> (r: Celsius)
        requires
            -CENTI_LIMIT < self.spec_value() + rhs.spec_value() < CENTI_LIMIT,
        ensures
            r.spec_value() == self.spec_value() + rhs.spec_value(),
    {
        Celsius { centi: self.centi + rhs.centi }
    }

    /// Exact difference of two temperatures.
    pub fn minus(self, rhs: Celsius) -> (r: Celsius)
        requires
            -CENTI_LIMIT < self.spec_value() - rhs.spec_value() < CENTI_LIMIT,
        ensures
            r.spec_value() == self.spec_value() - rhs.spec_value(),
    {
        Celsius { centi: self.centi - rhs.centi }
    }

    /// The reading as text, rounded to one fraction digit.
    pub fn text(&self) -> (r: String)
        requires
            -CENTI_LIMIT < self.spec_value() < CENTI_LIMIT,
        ensures
            r@ == celsius_text(self.spec_value()),
    {
        let mut v: Vec<u8> = Vec::new();
        push_report_text(&mut v, self.centi);
        proof {
            lemma_report_text_ascii(self.centi as int);
        }
        let s = ascii_string(v);
        s.concat("°C")
    }
}

} // verus!
