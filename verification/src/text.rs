//! Byte-level text helpers: ASCII classification, decimal digit strings,
//! and the fixed-point decimal notation used on the wire and in reports.
//!
//! All quantities that the devices measure in fractional units
//! (degrees Celsius, watts) are carried as integers counting hundredths,
//! so every textual rendering here is derived from plain integers.

use vstd::prelude::*;

verus! {

// ---------------------------------------------------------------------------
// Byte classification
// ---------------------------------------------------------------------------

pub open spec fn is_digit(b: u8) -> bool {
    48 <= b <= 57
}

pub open spec fn digit_val(b: u8) -> nat {
    (b - 48) as nat
}

pub open spec fn all_digits(s: Seq<u8>) -> bool {
    forall|i: int| 0 <= i < s.len() ==> is_digit(#[trigger] s[i])
}

/// Bytes that cross the wire inside a string as themselves: printable
/// ASCII without the quote and the backslash. Everything else is
/// carried too, behind an escape sequence (see `escape_bytes`).
pub open spec fn is_text_byte(b: u8) -> bool {
    32 <= b <= 126 && b != 34 && b != 92
}

pub open spec fn valid_text(s: Seq<u8>) -> bool {
    forall|i: int| 0 <= i < s.len() ==> is_text_byte(#[trigger] s[i])
}



pub open spec fn all_ascii(s: Seq<u8>) -> bool {
    forall|i: int| 0 <= i < s.len() ==> #[trigger] s[i] < 128
}

/// Wire text is ASCII.
pub proof fn lemma_valid_text_ascii(s: Seq<u8>)
    requires
        valid_text(s),
    ensures
        all_ascii(s),
{
    assert forall|i: int| 0 <= i < s.len() implies #[trigger] s[i] < 128 by {
        assert(is_text_byte(s[i]));
    }
}

/// The characters spelled by a sequence of ASCII bytes.
pub open spec fn bytes_chars(s: Seq<u8>) -> Seq<char> {
    Seq::new(s.len(), |i: int| s[i] as char)
}






// ---------------------------------------------------------------------------
// Finding a byte
// ---------------------------------------------------------------------------

/// Index of the first occurrence of `b` in `s`, if any.
pub open spec fn find_byte(s: Seq<u8>, b: u8) -> Option<int>
    decreases s.len(),
{
    if s.len() == 0 {
        None
    } else if s[0] == b {
        Some(0)
    } else {
        match find_byte(s.skip(1), b) {
            Some(i) => Some(i + 1),
            None => None,
        }
    }
}

/// `find_byte` returns exactly the first position that holds `b`.
pub proof fn lemma_find_byte_at(s: Seq<u8>, b: u8, i: int)
    requires
        0 <= i < s.len(),
        s[i] == b,
        forall|j: int| 0 <= j < i ==> s[j] != b,
    ensures
        find_byte(s, b) == Some(i),
    decreases s.len(),
{
    if i > 0 {
        lemma_find_byte_at(s.skip(1), b, i - 1);
    }
}

/// If no position holds `b`, `find_byte` reports none.
pub proof fn lemma_find_byte_none(s: Seq<u8>, b: u8)
    requires
        forall|j: int| 0 <= j < s.len() ==> s[j] != b,
    ensures
        find_byte(s, b) is None,
    decreases s.len(),
{
    if s.len() > 0 {
        lemma_find_byte_none(s.skip(1), b);
    }
}

/// What a successful `find_byte` means, position by position.
pub proof fn lemma_find_byte_found(s: Seq<u8>, b: u8)
    ensures
        match find_byte(s, b) {
            Some(i) => 0 <= i < s.len() && s[i] == b && forall|j: int| 0 <= j < i ==> s[j] != b,
            None => forall|j: int| 0 <= j < s.len() ==> s[j] != b,
        },
    decreases s.len(),
{
    if s.len() > 0 && s[0] != b {
        lemma_find_byte_found(s.skip(1), b);
        let t = s.skip(1);
        assert(forall|j: int| 0 <= j < t.len() ==> t[j] == s[j + 1]);
        match find_byte(t, b) {
            Some(i) => {
                assert(find_byte(s, b) == Some(i + 1));
                assert forall|j: int| 0 <= j < i + 1 implies s[j] != b by {
                    if j > 0 {
                        assert(t[j - 1] != b);
                    }
                }
            },
            None => {
                assert forall|j: int| 0 <= j < s.len() implies s[j] != b by {
                    if j > 0 {
                        assert(t[j - 1] != b);
                    }
                }
            },
        }
    }
}

// ---------------------------------------------------------------------------
// Decimal digit strings
// ---------------------------------------------------------------------------

/// The usual decimal notation of `n`: no sign, no leading zero
/// (except for the single digit of zero itself).
pub open spec fn dec_digits(n: nat) -> Seq<u8>
    decreases n,
{
    if n < 10 {
        seq![(n + 48) as u8]
    } else {
        dec_digits(n / 10).push((n % 10 + 48) as u8)
    }
}

/// The number spelled by a digit string, most significant digit first.
pub open spec fn digits_val(s: Seq<u8>) -> nat
    decreases s.len(),
{
    if s.len() == 0 {
        0
    } else {
        digits_val(s.drop_last()) * 10 + digit_val(s.last())
    }
}

pub open spec fn pow10(k: nat) -> nat
    decreases k,
{
    if k == 0 {
        1
    } else {
        10 * pow10((k - 1) as nat)
    }
}

pub proof fn lemma_dec_digits_shape(n: nat)
    ensures
        dec_digits(n).len() >= 1,
        all_digits(dec_digits(n)),
        n >= 10 ==> dec_digits(n).len() >= 2,
        dec_digits(n)[0] == 48 <==> n == 0,
    decreases n,
{
    if n >= 10 {
        lemma_dec_digits_shape(n / 10);
    }
}

pub proof fn lemma_dec_digits_val(n: nat)
    ensures
        digits_val(dec_digits(n)) == n,
    decreases n,
{
    if n < 10 {
        let s = dec_digits(n);
        assert(s.drop_last() =~= Seq::<u8>::empty());
        assert(digits_val(s.drop_last()) == 0);
        assert(s.last() == (n + 48) as u8);
        assert(digits_val(s) == digit_val((n + 48) as u8));
    } else {
        lemma_dec_digits_val(n / 10);
        let s = dec_digits(n);
        assert(s.drop_last() =~= dec_digits(n / 10));
        assert(digits_val(s.drop_last()) == n / 10);
        assert(s.last() == (n % 10 + 48) as u8);
        assert(digit_val((n % 10 + 48) as u8) == n % 10);
        assert(digits_val(s) == (n / 10) * 10 + n % 10);
    }
}

/// A digit string in canonical shape spells its value back: decimal
/// notation is one-to-one on strings without a spurious leading zero.
pub proof fn lemma_digits_canonical(s: Seq<u8>)
    requires
        s.len() >= 1,
        all_digits(s),
        s[0] != 48 || s.len() == 1,
    ensures
        dec_digits(digits_val(s)) == s,
    decreases s.len(),
{
    if s.len() == 1 {
        assert(s.drop_last() =~= Seq::<u8>::empty());
        assert(digits_val(s.drop_last()) == 0);
        let v = digits_val(s);
        assert(v == digit_val(s.last()));
        assert(v < 10);
        assert((v + 48) as u8 == s[0]);
        assert(dec_digits(v) =~= s);
    } else {
        let p = s.drop_last();
        lemma_digits_canonical(p);
        lemma_digits_val_bound(p);
        assert(digits_val(p) >= 1) by {
            if digits_val(p) == 0 {
                lemma_dec_digits_shape(0);
                assert(p[0] == 48);
            }
        }
        assert(dec_digits(digits_val(s)) =~= s);
    }
}

/// A string of `k` digits spells a value below `pow10(k)`, and a
/// canonical string of two or more digits spells at least ten.
pub proof fn lemma_digits_val_bound(s: Seq<u8>)
    requires
        all_digits(s),
    ensures
        digits_val(s) < pow10(s.len() as nat),
        s.len() >= 1 && s[0] != 48 ==> digits_val(s) >= pow10((s.len() - 1) as nat),
    decreases s.len(),
{
    if s.len() > 0 {
        lemma_digits_val_bound(s.drop_last());
        if s.len() >= 2 && s[0] != 48 {
            assert(s.drop_last()[0] == s[0]);
        }
    }
}

/// Decimal notation of a value below `pow10(k)` takes at most `k` digits.
pub proof fn lemma_dec_digits_len(n: nat, k: nat)
    requires
        k >= 1,
        n < pow10(k),
    ensures
        dec_digits(n).len() <= k,
    decreases n,
{
    if n >= 10 {
        assert(pow10(k) == 10 * pow10((k - 1) as nat));
        lemma_dec_digits_len(n / 10, (k - 1) as nat);
    }
}

/// Writes the decimal notation of `n` at the end of `out`.
pub fn push_dec_digits(out: &mut Vec<u8>, n: u64)
    ensures
        final(out)@ == old(out)@ + dec_digits(n as nat),
    decreases n,
{
    if n < 10 {
        out.push((n + 48) as u8);
    } else {
        push_dec_digits(out, n / 10);
        out.push((n % 10 + 48) as u8);
        proof {
            assert(out@ =~= old(out)@ + dec_digits(n as nat));
        }
    }
}

// ---------------------------------------------------------------------------
// Fixed-point decimal notation (hundredths)
// ---------------------------------------------------------------------------

/// Largest magnitude, in hundredths, that the wire notation carries.
/// Its integer part then has at most fifteen digits.
pub const CENTI_LIMIT: i64 = 100_000_000_000_000_000;

pub open spec fn abs_val(c: int) -> nat {
    if c >= 0 {
        c as nat
    } else {
        (-c) as nat
    }
}

/// Bytes that may appear in a decimal number: digits, minus, dot.
pub open spec fn is_num_byte(b: u8) -> bool {
    is_digit(b) || b == 45 || b == 46
}

/// Fraction part of a value of hundredths: one digit when the
/// hundredths digit is zero, two digits otherwise.
pub open spec fn frac_digits(f: nat) -> Seq<u8> {
    if f % 10 == 0 {
        seq![(f / 10 + 48) as u8]
    } else {
        seq![(f / 10 + 48) as u8, (f % 10 + 48) as u8]
    }
}

pub open spec fn frac_val(fp: Seq<u8>) -> nat {
    if fp.len() == 1 {
        digit_val(fp[0]) * 10
    } else {
        digit_val(fp[0]) * 10 + digit_val(fp[1])
    }
}

/// The wire notation of `c` hundredths: optional minus sign, integer
/// part without leading zeros, a dot, and the shortest fraction part
/// (at least one digit), exactly as the device endpoints emit it.
pub open spec fn centi_text(c: int) -> Seq<u8> {
    let sign: Seq<u8> = if c < 0 {
        seq![45u8]
    } else {
        Seq::empty()
    };
    sign + dec_digits(abs_val(c) / 100) + seq![46u8] + frac_digits(abs_val(c) % 100)
}

/// Reads a nonnegative decimal number in the wire notation; accepts
/// exactly the strings that `centi_text` produces for such values.
pub open spec fn parse_centi_mag(seg: Seq<u8>) -> Option<int> {
    match find_byte(seg, 46) {
        Some(dot) => {
            let ip = seg.take(dot);
            let fp = seg.skip(dot + 1);
            if 1 <= ip.len() <= 15 && all_digits(ip) && (ip[0] != 48 || ip.len() == 1) && 1
                <= fp.len() <= 2 && all_digits(fp) && (fp.len() == 2 ==> fp.last() != 48) {
                Some((digits_val(ip) * 100 + frac_val(fp)) as int)
            } else {
                None
            }
        },
        None => None,
    }
}

/// Reads a decimal number of hundredths in the wire notation.
pub open spec fn parse_centi(seg: Seq<u8>) -> Option<int> {
    if seg.len() > 0 && seg[0] == 45 {
        match parse_centi_mag(seg.skip(1)) {
            Some(v) => if v > 0 {
                Some(-v)
            } else {
                None
            },
            None => None,
        }
    } else {
        parse_centi_mag(seg)
    }
}

pub proof fn lemma_pow10_15()
    ensures
        pow10(15) == 1000_000_000_000_000,
{
    reveal_with_fuel(pow10, 17);
}

pub proof fn lemma_pow10_pos(k: nat)
    ensures
        pow10(k) >= 1,
    decreases k,
{
    if k > 0 {
        lemma_pow10_pos((k - 1) as nat);
    }
}

pub proof fn lemma_pow10_increases(a: nat, b: nat)
    requires
        a <= b,
    ensures
        pow10(a) <= pow10(b),
    decreases b,
{
    lemma_pow10_pos(a);
    if a < b {
        lemma_pow10_increases(a, (b - 1) as nat);
        lemma_pow10_pos((b - 1) as nat);
    }
}

/// Every byte of the wire notation is a digit, a minus or a dot, and
/// the notation of a bounded value is short.
pub proof fn lemma_centi_text_shape(c: int)
    requires
        -CENTI_LIMIT < c < CENTI_LIMIT,
    ensures
        forall|i: int|
            0 <= i < centi_text(c).len() ==> is_num_byte(#[trigger] centi_text(c)[i]),
        3 <= centi_text(c).len() <= 19,
{
    lemma_dec_digits_shape(abs_val(c) / 100);
    lemma_pow10_15();
    lemma_dec_digits_len(abs_val(c) / 100, 15);
}

/// Parsing inverts printing: the wire notation of `c` reads back as `c`.
pub proof fn lemma_parse_centi_text(c: int)
    requires
        -CENTI_LIMIT < c < CENTI_LIMIT,
    ensures
        parse_centi(centi_text(c)) == Some(c),
{
    let mag = abs_val(c);
    let ip = dec_digits(mag / 100);
    let fp = frac_digits(mag % 100);
    let body = ip + seq![46u8] + fp;
    lemma_dec_digits_shape(mag / 100);
    lemma_dec_digits_val(mag / 100);
    lemma_pow10_15();
    lemma_dec_digits_len(mag / 100, 15);
    assert(body[ip.len() as int] == 46);
    assert forall|j: int| 0 <= j < ip.len() implies body[j] != 46 by {
        assert(is_digit(ip[j]));
    }
    lemma_find_byte_at(body, 46, ip.len() as int);
    assert(body.take(ip.len() as int) =~= ip);
    assert(body.skip(ip.len() as int + 1) =~= fp);
    assert(frac_val(fp) == mag % 100) by {
        if mag % 100 % 10 == 0 {
            assert(fp.len() == 1);
            assert(digit_val(fp[0]) == mag % 100 / 10);
        } else {
            assert(fp.len() == 2);
        }
    }
    assert(parse_centi_mag(body) == Some((mag / 100 * 100 + mag % 100) as int));
    assert(mag / 100 * 100 + mag % 100 == mag);
    if c < 0 {
        let s = centi_text(c);
        assert(s[0] == 45);
        assert(s.skip(1) =~= body);
        assert(mag > 0);
    } else {
        let s = centi_text(c);
        assert(s =~= body);
        assert(s[0] == ip[0]);
        assert(is_digit(ip[0]));
    }
}

/// Printing inverts parsing: only the wire notation of `v` reads as `v`.
pub proof fn lemma_parse_centi_adequate(seg: Seq<u8>, v: int)
    requires
        parse_centi(seg) == Some(v),
    ensures
        seg == centi_text(v),
        -CENTI_LIMIT < v < CENTI_LIMIT,
{
    lemma_pow10_15();
    if seg.len() > 0 && seg[0] == 45 {
        let body = seg.skip(1);
        lemma_parse_centi_mag_adequate(body, -v);
        assert(seg =~= seq![45u8] + body);
        assert(centi_text(v) =~= seq![45u8] + centi_text(-v));
    } else {
        lemma_parse_centi_mag_adequate(seg, v);
    }
}

proof fn lemma_parse_centi_mag_adequate(seg: Seq<u8>, v: int)
    requires
        parse_centi_mag(seg) == Some(v),
    ensures
        0 <= v < CENTI_LIMIT,
        seg == dec_digits(abs_val(v) / 100) + seq![46u8] + frac_digits(abs_val(v) % 100),
        seg == centi_text(v),
{
    lemma_pow10_15();
    let dot = find_byte(seg, 46).unwrap();
    lemma_find_byte_found(seg, 46);
    let ip = seg.take(dot);
    let fp = seg.skip(dot + 1);
    lemma_digits_canonical(ip);
    lemma_digits_val_bound(ip);
    lemma_pow10_increases(ip.len() as nat, 15);
    let dv = digits_val(ip);
    let f = frac_val(fp);
    assert(f < 100);
    assert(v == dv * 100 + f);
    assert(abs_val(v) == dv * 100 + f);
    assert(abs_val(v) / 100 == dv && abs_val(v) % 100 == f) by {
        vstd::arithmetic::div_mod::lemma_fundamental_div_mod_converse(
            abs_val(v) as int,
            100,
            dv as int,
            f as int,
        );
    }
    assert(frac_digits(f) =~= fp) by {
        if fp.len() == 1 {
            assert(f == digit_val(fp[0]) * 10);
            assert(f % 10 == 0);
            assert(f / 10 == digit_val(fp[0]));
        } else {
            assert(fp.len() == 2);
            assert(digit_val(fp[1]) != 0);
            assert(f == digit_val(fp[0]) * 10 + digit_val(fp[1]));
            assert(f % 10 == digit_val(fp[1]));
            assert(f / 10 == digit_val(fp[0]));
        }
    }
    assert(seg =~= ip + seq![46u8] + fp);
    assert(dv * 100 + f < CENTI_LIMIT);
    assert(centi_text(v) =~= dec_digits(dv) + seq![46u8] + fp);
}

// ---------------------------------------------------------------------------
// Report notation (one rounded fraction digit)
// ---------------------------------------------------------------------------

/// The notation reports use for a value of hundredths: one fraction
/// digit, rounded half away from zero.
pub open spec fn report_text(c: int) -> Seq<u8> {
    let d = (abs_val(c) + 5) / 10;
    let sign: Seq<u8> = if c < 0 {
        seq![45u8]
    } else {
        Seq::empty()
    };
    sign + dec_digits(d / 10) + seq![46u8] + seq![(d % 10 + 48) as u8]
}

// ---------------------------------------------------------------------------
// Emitting
// ---------------------------------------------------------------------------

/// Writes the wire notation of `c` hundredths at the end of `out`.
pub fn push_centi_text(out: &mut Vec<u8>, c: i64)
    requires
        -CENTI_LIMIT < c < CENTI_LIMIT,
    ensures
        final(out)@ == old(out)@ + centi_text(c as int),
{
    let mag: u64 = if c < 0 {
        out.push(45);
        (-c) as u64
    } else {
        c as u64
    };
    push_dec_digits(out, mag / 100);
    out.push(46);
    let f: u64 = mag % 100;
    if f % 10 == 0 {
        out.push((f / 10 + 48) as u8);
    } else {
        out.push((f / 10 + 48) as u8);
        out.push((f % 10 + 48) as u8);
    }
    proof {
        assert(out@ =~= old(out)@ + centi_text(c as int));
    }
}

/// Writes the report notation of `c` hundredths at the end of `out`.
pub fn push_report_text(out: &mut Vec<u8>, c: i64)
    requires
        -CENTI_LIMIT < c < CENTI_LIMIT,
    ensures
        final(out)@ == old(out)@ + report_text(c as int),
{
    let mag: u64 = if c < 0 {
        out.push(45);
        (-c) as u64
    } else {
        c as u64
    };
    let d: u64 = (mag + 5) / 10;
    push_dec_digits(out, d / 10);
    out.push(46);
    out.push((d % 10 + 48) as u8);
    proof {
        assert(out@ =~= old(out)@ + report_text(c as int));
    }
}

// ---------------------------------------------------------------------------
// Scanning
// ---------------------------------------------------------------------------

/// Compares `s` from `lo` on with `pat`.
pub fn bytes_match_at(s: &[u8], lo: usize, pat: &[u8]) -> (r: bool)
    requires
        lo <= s@.len(),
    ensures
        r <==> lo + pat@.len() <= s@.len() && s@.subrange(
            lo as int,
            lo as int + pat@.len(),
        ) == pat@,
{
    if s.len() - lo < pat.len() {
        return false;
    }
    let mut i: usize = 0;
    while i < pat.len()
        invariant
            lo + pat@.len() <= s@.len() <= usize::MAX,
            0 <= i <= pat@.len(),
            forall|j: int| 0 <= j < i ==> s@[lo + j] == pat@[j],
        decreases pat@.len() - i,
    {
        if s[lo + i] != pat[i] {
            proof {
                assert(s@.subrange(lo as int, lo as int + pat@.len())[i as int] != pat@[i as int]);
            }
            return false;
        }
        i += 1;
    }
    proof {
        assert(s@.subrange(lo as int, lo as int + pat@.len()) =~= pat@);
    }
    true
}

/// Whole-slice equality.
pub fn bytes_equal(a: &[u8], b: &[u8]) -> (r: bool)
    ensures
        r <==> a@ == b@,
{
    if a.len() != b.len() {
        proof {
            assert(a@.len() != b@.len());
        }
        return false;
    }
    let r = bytes_match_at(a, 0, b);
    proof {
        if r {
            assert(a@.subrange(0, a@.len() as int) =~= a@);
        } else {
            assert(a@.subrange(0, b@.len() as int) =~= a@);
        }
    }
    r
}

/// First position of `b` in `s[lo..hi]`, if any.
pub fn find_byte_in(s: &[u8], lo: usize, hi: usize, b: u8) -> (r: Option<usize>)
    requires
        lo <= hi <= s@.len(),
    ensures
        match r {
            Some(i) => lo <= i < hi && s@[i as int] == b && forall|j: int|
                lo <= j < i ==> s@[j] != b,
            None => forall|j: int| lo <= j < hi ==> s@[j] != b,
        },
{
    let mut i: usize = lo;
    while i < hi
        invariant
            lo <= i <= hi <= s@.len(),
            forall|j: int| lo <= j < i ==> s@[j] != b,
        decreases hi - i,
    {
        if s[i] == b {
            return Some(i);
        }
        i += 1;
    }
    None
}

/// Reads `s[lo..hi]` as a digit string, most significant digit first.
fn scan_digits(s: &[u8], lo: usize, hi: usize) -> (r: Option<u64>)
    requires
        lo <= hi <= s@.len(),
        hi - lo <= 15,
    ensures
        match r {
            Some(v) => all_digits(s@.subrange(lo as int, hi as int)) && v == digits_val(
                s@.subrange(lo as int, hi as int),
            ),
            None => !all_digits(s@.subrange(lo as int, hi as int)),
        },
{
    proof {
        lemma_pow10_15();
    }
    let mut i: usize = lo;
    let mut acc: u64 = 0;
    while i < hi
        invariant
            lo <= i <= hi <= s@.len(),
            hi - lo <= 15,
            all_digits(s@.subrange(lo as int, i as int)),
            acc == digits_val(s@.subrange(lo as int, i as int)),
            acc < pow10((i - lo) as nat),
            pow10(15) == 1000_000_000_000_000,
        decreases hi - i,
    {
        let b = s[i];
        if b < 48 || b > 57 {
            proof {
                assert(s@.subrange(lo as int, hi as int)[i - lo] == s@[i as int]);
            }
            return None;
        }
        proof {
            lemma_pow10_increases((i - lo) as nat, 14);
            assert(s@.subrange(lo as int, i + 1).drop_last() =~= s@.subrange(lo as int, i as int));
            assert(s@.subrange(lo as int, i + 1).last() == s@[i as int]);
            lemma_digits_val_bound(s@.subrange(lo as int, i + 1));
        }
        acc = acc * 10 + ((b - 48) as u64);
        i += 1;
    }
    proof {
        assert(s@.subrange(lo as int, hi as int) =~= s@.subrange(lo as int, i as int));
    }
    Some(acc)
}

/// Reads `s[lo..hi]` as a decimal number of hundredths in the wire
/// notation; returns exactly what `parse_centi` defines.
pub fn parse_centi_range(s: &[u8], lo: usize, hi: usize) -> (r: Option<i64>)
    requires
        lo <= hi <= s@.len(),
    ensures
        match r {
            Some(v) => parse_centi(s@.subrange(lo as int, hi as int)) == Some(v as int)
                && -CENTI_LIMIT < v < CENTI_LIMIT,
            None => parse_centi(s@.subrange(lo as int, hi as int)) is None,
        },
{
    proof {
        lemma_pow10_15();
    }
    let ghost seg = s@.subrange(lo as int, hi as int);
    let neg = lo < hi && s[lo] == 45;
    let start = if neg {
        lo + 1
    } else {
        lo
    };
    let ghost body = if neg {
        seg.skip(1)
    } else {
        seg
    };
    proof {
        assert(body =~= s@.subrange(start as int, hi as int));
    }
    let dot_opt = find_byte_in(s, start, hi, 46);
    let dot = match dot_opt {
        Some(d) => d,
        None => {
            proof {
                lemma_find_byte_none(body, 46);
            }
            return None;
        },
    };
    proof {
        lemma_find_byte_at(body, 46, dot - start);
    }
    let ghost ip = body.take(dot - start);
    let ghost fp = body.skip(dot - start + 1);
    proof {
        assert(ip =~= s@.subrange(start as int, dot as int));
        assert(fp =~= s@.subrange(dot + 1, hi as int));
    }
    let iplen = dot - start;
    if iplen < 1 || iplen > 15 {
        return None;
    }
    let ipv = match scan_digits(s, start, dot) {
        Some(v) => v,
        None => {
            return None;
        },
    };
    if s[start] == 48 && iplen != 1 {
        return None;
    }
    if hi - dot - 1 < 1 || hi - dot - 1 > 2 {
        return None;
    }
    let b0 = s[dot + 1];
    if b0 < 48 || b0 > 57 {
        proof {
            assert(fp[0] == s@[dot + 1]);
        }
        return None;
    }
    let f: u64 = if hi - dot - 1 == 2 {
        let b1 = s[dot + 2];
        if b1 < 48 || b1 > 57 {
            proof {
                assert(fp[1] == s@[dot + 2]);
            }
            return None;
        }
        if b1 == 48 {
            proof {
                assert(fp.last() == s@[dot + 2]);
            }
            return None;
        }
        ((b0 - 48) as u64) * 10 + ((b1 - 48) as u64)
    } else {
        ((b0 - 48) as u64) * 10
    };
    proof {
        assert(all_digits(fp));
        assert(f == frac_val(fp));
        lemma_digits_val_bound(ip);
        lemma_pow10_increases(ip.len() as nat, 15);
    }
    let mag: u64 = ipv * 100 + f;
    if neg {
        if mag == 0 {
            return None;
        }
        Some(-(mag as i64))
    } else {
        Some(mag as i64)
    }
}

// ---------------------------------------------------------------------------
// Strings
// ---------------------------------------------------------------------------

/// Relies on `String::from_utf8`: it succeeds exactly on valid UTF-8,
/// and the returned string's UTF-8 encoding is the input bytes.
#[verifier::external_body]
pub(crate) fn utf8_string(v: Vec<u8>) -> (r: Option<String>)
    ensures
        match r {
            Some(s) => vstd::utf8::valid_utf8(v@) && vstd::utf8::encode_utf8(s@) == v@,
            None => !vstd::utf8::valid_utf8(v@),
        },
{
    match String::from_utf8(v) {
        Ok(s) => Some(s),
        Err(_) => None,
    }
}

/// Turns ASCII bytes into the `String` spelling them.
pub fn ascii_string(v: Vec<u8>) -> (r: String)
    requires
        all_ascii(v@),
    ensures
        r@ == bytes_chars(v@),
{
    proof {
        lemma_ascii_bytes_utf8(v@);
        broadcast use vstd::utf8::encode_utf8_valid_utf8;

        assert(vstd::utf8::valid_utf8(v@));
    }
    match utf8_string(v) {
        Some(s) => {
            proof {
                broadcast use vstd::utf8::encode_utf8_decode_utf8;

                assert(vstd::utf8::decode_utf8(vstd::utf8::encode_utf8(s@)) == s@);
                assert(vstd::utf8::decode_utf8(vstd::utf8::encode_utf8(bytes_chars(v@)))
                    == bytes_chars(v@));
            }
            s
        },
        None => {
            proof {
                assert(false);
            }
            String::new()
        },
    }
}





/// Every byte of the report notation is ASCII.
pub proof fn lemma_report_text_ascii(c: int)
    ensures
        all_ascii(report_text(c)),
{
    let d = (abs_val(c) + 5) / 10;
    lemma_dec_digits_shape(d / 10);
    assert forall|i: int| 0 <= i < report_text(c).len() implies #[trigger] report_text(c)[i]
        < 128 by {
        let sign_len: int = if c < 0 {
            1
        } else {
            0
        };
        if i >= sign_len && i < sign_len + dec_digits(d / 10).len() {
            assert(is_digit(dec_digits(d / 10)[i - sign_len]));
        }
    }
}

// ---------------------------------------------------------------------------
// Joining report lines
// ---------------------------------------------------------------------------

/// Lines joined with a line break between each pair.
pub open spec fn joined_lines(lines: Seq<Seq<char>>) -> Seq<char>
    decreases lines.len(),
{
    if lines.len() == 0 {
        Seq::empty()
    } else if lines.len() == 1 {
        lines[0]
    } else {
        joined_lines(lines.drop_last()) + "\n"@ + lines.last()
    }
}

/// Joins report lines with line breaks.
pub fn join_lines(lines: &Vec<String>) -> (r: String)
    ensures
        r@ == joined_lines(lines@.map_values(|s: String| s@)),
{
    let ghost m = lines@.map_values(|s: String| s@);
    let mut out = String::new();
    let n = lines.len();
    let mut i: usize = 0;
    while i < n
        invariant
            m == lines@.map_values(|s: String| s@),
            n == lines@.len(),
            0 <= i <= n,
            out@ == joined_lines(m.take(i as int)),
        decreases n - i,
    {
        if i > 0 {
            out.append("\n");
        }
        out.append(lines[i].as_str());
        proof {
            let t = m.take(i + 1);
            assert(t.drop_last() =~= m.take(i as int));
            assert(t.last() == m[i as int]);
            assert(m[i as int] == lines@[i as int]@);
            if i == 0 {
                assert(joined_lines(t) == t[0]);
                assert(out@ == t[0]);
            } else {
                assert(joined_lines(t) == joined_lines(m.take(i as int)) + "\n"@ + t.last());
            }
        }
        i += 1;
    }
    proof {
        assert(m.take(n as int) =~= m);
    }
    out
}

// ---------------------------------------------------------------------------
// String escaping
// ---------------------------------------------------------------------------
//
// A string crosses the wire as its UTF-8 bytes, escaped: the quote and
// the backslash as two-character escapes, control bytes as `\u00` and
// two hex digits, everything else (non-ASCII included) as itself. Any
// byte sequence can be carried, and the notation of each is unique.

pub open spec fn hex_digit(n: nat) -> u8 {
    if n < 10 {
        (n + 48) as u8
    } else {
        (n + 87) as u8
    }
}

pub open spec fn is_hex_digit(b: u8) -> bool {
    48 <= b <= 57 || 97 <= b <= 102
}

pub open spec fn hex_val(b: u8) -> nat {
    if b <= 57 {
        (b - 48) as nat
    } else {
        (b - 87) as nat
    }
}

/// The wire notation of one byte of a string.
pub open spec fn esc_byte(b: u8) -> Seq<u8> {
    if b == 34 {
        seq![92u8, 34]
    } else if b == 92 {
        seq![92u8, 92]
    } else if b < 32 {
        seq![92u8, 117, 48, 48, hex_digit((b / 16) as nat), hex_digit((b % 16) as nat)]
    } else {
        seq![b]
    }
}

/// The wire notation of a string's bytes.
pub open spec fn escape_bytes(s: Seq<u8>) -> Seq<u8>
    decreases s.len(),
{
    if s.len() == 0 {
        Seq::empty()
    } else {
        esc_byte(s[0]) + escape_bytes(s.skip(1))
    }
}

/// Reads an escaped segment back to the bytes it spells; accepts
/// exactly the notations `escape_bytes` produces.
pub open spec fn parse_escaped(seg: Seq<u8>) -> Option<Seq<u8>>
    decreases seg.len(),
{
    if seg.len() == 0 {
        Some(Seq::empty())
    } else if seg[0] == 92 {
        if seg.len() >= 2 && (seg[1] == 34 || seg[1] == 92) {
            match parse_escaped(seg.skip(2)) {
                Some(t) => Some(seq![seg[1]] + t),
                None => None,
            }
        } else if seg.len() >= 6 && seg[1] == 117 && seg[2] == 48 && seg[3] == 48 && is_hex_digit(
            seg[4],
        ) && is_hex_digit(seg[5]) && hex_val(seg[4]) * 16 + hex_val(seg[5]) < 32 {
            match parse_escaped(seg.skip(6)) {
                Some(t) => Some(seq![(hex_val(seg[4]) * 16 + hex_val(seg[5])) as u8] + t),
                None => None,
            }
        } else {
            None
        }
    } else if seg[0] == 34 || seg[0] < 32 {
        None
    } else {
        match parse_escaped(seg.skip(1)) {
            Some(t) => Some(seq![seg[0]] + t),
            None => None,
        }
    }
}

pub proof fn lemma_hex_digit(n: nat)
    requires
        n < 16,
    ensures
        is_hex_digit(hex_digit(n)),
        hex_val(hex_digit(n)) == n,
{
}

pub proof fn lemma_hex_digit_canonical(b: u8)
    requires
        is_hex_digit(b),
    ensures
        hex_digit(hex_val(b)) == b,
{
}

/// Unescaping inverts escaping: the notation of `s` reads back as `s`.
pub proof fn lemma_escape_round_trip(s: Seq<u8>)
    ensures
        parse_escaped(escape_bytes(s)) == Some(s),
    decreases s.len(),
{
    if s.len() > 0 {
        lemma_escape_round_trip(s.skip(1));
        let b = s[0];
        let e = escape_bytes(s);
        let rest = escape_bytes(s.skip(1));
        if b == 34 || b == 92 {
            assert(e[0] == 92 && e[1] == b);
            assert(e.skip(2) =~= rest);
            assert(seq![b] + s.skip(1) =~= s);
        } else if b < 32 {
            lemma_hex_digit((b / 16) as nat);
            lemma_hex_digit((b % 16) as nat);
            assert(e[0] == 92 && e[1] == 117 && e[2] == 48 && e[3] == 48);
            assert(e[4] == hex_digit((b / 16) as nat) && e[5] == hex_digit((b % 16) as nat));
            assert(hex_val(e[4]) * 16 + hex_val(e[5]) == b);
            assert(e.skip(6) =~= rest);
            assert(seq![b] + s.skip(1) =~= s);
        } else {
            assert(e[0] == b);
            assert(e.skip(1) =~= rest);
            assert(seq![b] + s.skip(1) =~= s);
        }
    }
}

/// Only the notation of `s` reads as `s`: the notation is one-to-one.
pub proof fn lemma_escape_adequate(seg: Seq<u8>, s: Seq<u8>)
    requires
        parse_escaped(seg) == Some(s),
    ensures
        seg == escape_bytes(s),
    decreases seg.len(),
{
    if seg.len() == 0 {
        assert(seg =~= escape_bytes(s));
    } else if seg[0] == 92 {
        if seg.len() >= 2 && (seg[1] == 34 || seg[1] == 92) {
            let t = parse_escaped(seg.skip(2)).unwrap();
            lemma_escape_adequate(seg.skip(2), t);
            assert(s == seq![seg[1]] + t);
            assert(s[0] == seg[1]);
            assert(s.skip(1) =~= t);
            assert(seg =~= esc_byte(s[0]) + escape_bytes(s.skip(1)));
            assert(seg =~= escape_bytes(s));
        } else {
            let v = (hex_val(seg[4]) * 16 + hex_val(seg[5])) as u8;
            let t = parse_escaped(seg.skip(6)).unwrap();
            lemma_escape_adequate(seg.skip(6), t);
            assert(s == seq![v] + t);
            assert(s[0] == v);
            assert(s.skip(1) =~= t);
            lemma_hex_digit_canonical(seg[4]);
            lemma_hex_digit_canonical(seg[5]);
            assert(hex_val(seg[5]) < 16);
            assert(v / 16 == hex_val(seg[4]) && v % 16 == hex_val(seg[5]));
            assert(esc_byte(v) =~= seg.take(6));
            assert(seg =~= seg.take(6) + seg.skip(6));
            assert(seg =~= escape_bytes(s));
        }
    } else {
        let t = parse_escaped(seg.skip(1)).unwrap();
        lemma_escape_adequate(seg.skip(1), t);
        assert(s == seq![seg[0]] + t);
        assert(s[0] == seg[0]);
        assert(s.skip(1) =~= t);
        assert(seg =~= esc_byte(s[0]) + escape_bytes(s.skip(1)));
        assert(seg =~= escape_bytes(s));
    }
}

/// The notation grows at most sixfold.
pub proof fn lemma_escape_len(s: Seq<u8>)
    ensures
        escape_bytes(s).len() <= 6 * s.len(),
    decreases s.len(),
{
    if s.len() > 0 {
        lemma_escape_len(s.skip(1));
    }
}

/// Plain wire text needs no escapes: its notation is itself.
pub proof fn lemma_escape_plain(s: Seq<u8>)
    requires
        valid_text(s),
    ensures
        escape_bytes(s) == s,
    decreases s.len(),
{
    if s.len() > 0 {
        assert(is_text_byte(s[0]));
        lemma_escape_plain(s.skip(1));
        assert(escape_bytes(s) =~= s);
    }
}

/// Escaping one more byte appends that byte's notation.
pub proof fn lemma_escape_snoc(s: Seq<u8>, b: u8)
    ensures
        escape_bytes(s.push(b)) == escape_bytes(s) + esc_byte(b),
    decreases s.len(),
{
    if s.len() == 0 {
        assert(s.push(b)[0] == b);
        assert(s.push(b).skip(1) =~= Seq::<u8>::empty());
        assert(escape_bytes(Seq::<u8>::empty()) =~= Seq::<u8>::empty());
        assert(escape_bytes(s.push(b)) =~= esc_byte(b) + escape_bytes(s.push(b).skip(1)));
        assert(escape_bytes(s.push(b)) =~= esc_byte(b));
        assert(escape_bytes(s) + esc_byte(b) =~= esc_byte(b));
    } else {
        lemma_escape_snoc(s.skip(1), b);
        assert(s.push(b)[0] == s[0]);
        assert(s.push(b).skip(1) =~= s.skip(1).push(b));
        assert(escape_bytes(s.push(b)) =~= escape_bytes(s) + esc_byte(b));
    }
}

/// ASCII bytes are their own characters' UTF-8 encoding.
pub proof fn lemma_ascii_bytes_utf8(v: Seq<u8>)
    requires
        all_ascii(v),
    ensures
        vstd::utf8::encode_utf8(bytes_chars(v)) == v,
{
    broadcast use vstd::utf8::is_ascii_chars_encode_utf8;

    let chars = bytes_chars(v);
    assert forall|i: int| 0 <= i < chars.len() implies '\0' <= #[trigger] chars[i]
        <= '\u{7f}' by {
        assert(v[i] < 128);
        assert((v[i] as char) as u8 == v[i]);
    }
    assert(vstd::utf8::is_ascii_chars(chars));
    assert forall|i: int|
        0 <= i < v.len() implies #[trigger] vstd::utf8::encode_utf8(chars)[i] == v[i] by {
        assert(chars[i] as u8 == vstd::utf8::encode_utf8(chars)[i]);
        assert((v[i] as char) as u8 == v[i]);
    }
    assert(vstd::utf8::encode_utf8(chars) =~= v);
}

/// Writes the wire notation of a string's bytes at the end of `out`.
pub fn push_escaped(out: &mut Vec<u8>, bytes: &[u8])
    ensures
        final(out)@ == old(out)@ + escape_bytes(bytes@),
{
    let n = bytes.len();
    let mut i: usize = 0;
    while i < n
        invariant
            n == bytes@.len(),
            0 <= i <= n,
            out@ == old(out)@ + escape_bytes(bytes@.take(i as int)),
        decreases n - i,
    {
        let b = bytes[i];
        if b == 34 {
            out.push(92);
            out.push(34);
        } else if b == 92 {
            out.push(92);
            out.push(92);
        } else if b < 32 {
            out.push(92);
            out.push(117);
            out.push(48);
            out.push(48);
            let hi = b / 16;
            let lo = b % 16;
            out.push(
                if hi < 10 {
                    hi + 48
                } else {
                    hi + 87
                },
            );
            out.push(
                if lo < 10 {
                    lo + 48
                } else {
                    lo + 87
                },
            );
        } else {
            out.push(b);
        }
        proof {
            lemma_escape_snoc(bytes@.take(i as int), b);
            assert(bytes@.take(i + 1) =~= bytes@.take(i as int).push(b));
            assert(out@ =~= old(out)@ + escape_bytes(bytes@.take(i + 1)));
        }
        i += 1;
    }
    proof {
        assert(bytes@.take(n as int) =~= bytes@);
    }
}

/// Reads `s[lo..hi]` as an escaped segment; yields exactly what
/// `parse_escaped` defines.
pub fn unescape_range(s: &[u8], lo: usize, hi: usize) -> (r: Option<Vec<u8>>)
    requires
        lo <= hi <= s@.len(),
    ensures
        match r {
            Some(v) => parse_escaped(s@.subrange(lo as int, hi as int)) == Some(v@),
            None => parse_escaped(s@.subrange(lo as int, hi as int)) is None,
        },
{
    let ghost seg = s@.subrange(lo as int, hi as int);
    let mut out: Vec<u8> = Vec::new();
    let mut i: usize = lo;
    while i < hi
        invariant
            lo <= i <= hi <= s@.len(),
            seg == s@.subrange(lo as int, hi as int),
            match parse_escaped(s@.subrange(i as int, hi as int)) {
                Some(t) => parse_escaped(seg) == Some(out@ + t),
                None => parse_escaped(seg) is None,
            },
        decreases hi - i,
    {
        let ghost rest = s@.subrange(i as int, hi as int);
        proof {
            assert(rest[0] == s@[i as int]);
        }
        let b = s[i];
        if b == 92 {
            if hi - i >= 2 && (s[i + 1] == 34 || s[i + 1] == 92) {
                proof {
                    assert(rest[1] == s@[i + 1]);
                    assert(rest.skip(2) =~= s@.subrange(i + 2, hi as int));
                }
                out.push(s[i + 1]);
                proof {
                    match parse_escaped(s@.subrange(i + 2, hi as int)) {
                        Some(t) => {
                            assert(parse_escaped(rest) == Some(seq![rest[1]] + t));
                            assert(out@ + t =~= (out@.drop_last() + seq![rest[1]]) + t);
                            assert(out@.drop_last() + (seq![rest[1]] + t) =~= out@ + t);
                        },
                        None => {},
                    }
                }
                i += 2;
            } else if hi - i >= 6 && s[i + 1] == 117 && s[i + 2] == 48 && s[i + 3] == 48 {
                let d1 = s[i + 4];
                let d2 = s[i + 5];
                let ok1 = (48 <= d1 && d1 <= 57) || (97 <= d1 && d1 <= 102);
                let ok2 = (48 <= d2 && d2 <= 57) || (97 <= d2 && d2 <= 102);
                proof {
                    assert(rest[1] == s@[i + 1]);
                    assert(rest[2] == s@[i + 2]);
                    assert(rest[3] == s@[i + 3]);
                    assert(rest[4] == s@[i + 4]);
                    assert(rest[5] == s@[i + 5]);
                }
                if !ok1 || !ok2 {
                    proof {
                        assert(parse_escaped(rest) is None);
                    }
                    return None;
                }
                let v1: u8 = if d1 <= 57 {
                    d1 - 48
                } else {
                    d1 - 87
                };
                let v2: u8 = if d2 <= 57 {
                    d2 - 48
                } else {
                    d2 - 87
                };
                let v: u8 = v1 * 16 + v2;
                if v >= 32 {
                    proof {
                        assert(parse_escaped(rest) is None);
                    }
                    return None;
                }
                proof {
                    assert(rest.skip(6) =~= s@.subrange(i + 6, hi as int));
                }
                out.push(v);
                proof {
                    match parse_escaped(s@.subrange(i + 6, hi as int)) {
                        Some(t) => {
                            assert(parse_escaped(rest) == Some(seq![v] + t));
                            assert(out@.drop_last() + (seq![v] + t) =~= out@ + t);
                        },
                        None => {},
                    }
                }
                i += 6;
            } else {
                proof {
                    if rest.len() >= 2 {
                        assert(rest[1] == s@[i + 1]);
                    }
                    assert(parse_escaped(rest) is None);
                }
                return None;
            }
        } else if b == 34 || b < 32 {
            proof {
                assert(parse_escaped(rest) is None);
            }
            return None;
        } else {
            proof {
                assert(rest.skip(1) =~= s@.subrange(i + 1, hi as int));
            }
            out.push(b);
            proof {
                match parse_escaped(s@.subrange(i + 1, hi as int)) {
                    Some(t) => {
                        assert(parse_escaped(rest) == Some(seq![b] + t));
                        assert(out@.drop_last() + (seq![b] + t) =~= out@ + t);
                    },
                    None => {},
                }
            }
            i += 1;
        }
    }
    proof {
        assert(s@.subrange(i as int, hi as int) =~= Seq::<u8>::empty());
        assert(parse_escaped(s@.subrange(i as int, hi as int)) == Some(Seq::<u8>::empty()));
        assert(out@ + Seq::<u8>::empty() =~= out@);
    }
    Some(out)
}

} // verus!
