use vstd::prelude::*;
use crate::text::{
    find, first_occurrence, lemma_split_nonempty, occurs_at, slice, split_on, split_spec, trim,
    trim_spec, views,
};

verus! {

pub open spec fn is_digit(b: u8) -> bool {
    0x30 <= b <= 0x39
}

pub open spec fn all_digits(s: Seq<u8>) -> bool {
    forall|i: int| 0 <= i < s.len() ==> is_digit(s[i])
}

/// Value of a string of decimal digits; the empty string is 0.
pub open spec fn digits_value(s: Seq<u8>) -> int
    decreases s.len(),
{
    if s.len() == 0 { 0 } else { digits_value(s.drop_last()) * 10 + (s.last() - 0x30) }
}

/// `s` without one leading `+`.
pub open spec fn unsigned_text(s: Seq<u8>) -> Seq<u8> {
    if s.len() > 0 && s[0] == 0x2b { s.drop_first() } else { s }
}

/// An unsigned integer: an optional `+`, then one or more decimal digits
/// whose value fits in `u64`.
pub open spec fn u64_of(s: Seq<u8>) -> Option<u64> {
    let d = unsigned_text(s);
    if 0 < d.len() && all_digits(d) && digits_value(d) <= u64::MAX {
        Some(digits_value(d) as u64)
    } else {
        None
    }
}

/// `s` with `E` written as `e`.
pub open spec fn lower_e(s: Seq<u8>) -> Seq<u8> {
    s.map_values(|b: u8| if b == 0x45 { 0x65u8 } else { b })
}

/// An exponent: an optional sign, then one or more decimal digits.
pub open spec fn exponent_of(t: Seq<u8>) -> Option<int> {
    let signed = t.len() > 0 && (t[0] == 0x2b || t[0] == 0x2d);
    let d = if signed { t.drop_first() } else { t };
    if d.len() > 0 && all_digits(d) {
        Some(if signed && t[0] == 0x2d { -digits_value(d) } else { digits_value(d) })
    } else {
        None
    }
}

/// The first `p` digits of `d`, continued with zeros past its end.
pub open spec fn padded(d: Seq<u8>, p: int) -> Seq<u8> {
    Seq::new(if p < 0 { 0 } else { p as nat }, |i: int| if i < d.len() { d[i] } else { 0x30u8 })
}

/// A length in metres, as an optional `+`, whole digits, optionally a point
/// followed by fraction digits, with at least one digit in all, and
/// optionally `e` or `E` with a signed exponent; converted to micrometres
/// and rounded down. With `p` the number of whole digits plus the exponent
/// plus six, the micrometres are the first `p` digits of the mantissa.
pub open spec fn micro_of(s: Seq<u8>) -> Option<u64> {
    let halves = split_spec(lower_e(unsigned_text(s)), 0x65);
    let exp = if halves.len() == 2 { exponent_of(halves[1]) } else { Some(0int) };
    let parts = split_spec(halves[0], 0x2e);
    let whole = parts[0];
    let frac = if parts.len() == 2 { parts[1] } else { Seq::empty() };
    let value = digits_value(padded(whole + frac, whole.len() + exp.unwrap() + 6));
    if halves.len() <= 2 && exp is Some && parts.len() <= 2 && all_digits(whole)
        && all_digits(frac) && whole.len() + frac.len() > 0 && value <= u64::MAX {
        Some(value as u64)
    } else {
        None
    }
}

/// Whether every comma-separated item of `s` is an unsigned integer.
pub open spec fn all_u64(parts: Seq<Seq<u8>>) -> bool {
    forall|i: int| 0 <= i < parts.len() ==> u64_of(#[trigger] parts[i]) is Some
}

/// The comma-separated unsigned integers of `s`; items are not trimmed.
pub open spec fn requests_of(s: Seq<u8>) -> Option<Seq<u64>> {
    let parts = split_spec(s, 0x2c);
    if all_u64(parts) {
        Some(parts.map_values(|p: Seq<u8>| u64_of(p).unwrap()))
    } else {
        None
    }
}

proof fn lemma_digits_value_nonneg(s: Seq<u8>)
    requires
        all_digits(s),
    ensures
        digits_value(s) >= 0,
    decreases s.len(),
{
    if s.len() > 0 {
        lemma_digits_value_nonneg(s.drop_last());
    }
}

pub open spec fn pow10(n: nat) -> int
    decreases n,
{
    if n == 0 { 1 } else { 10 * pow10((n - 1) as nat) }
}

proof fn lemma_prefix_value_le(s: Seq<u8>, k: int)
    requires
        all_digits(s),
        0 <= k <= s.len(),
    ensures
        digits_value(s.subrange(0, k)) <= digits_value(s),
    decreases s.len(),
{
    if k == s.len() {
        assert(s.subrange(0, k) =~= s);
    } else {
        lemma_prefix_value_le(s.drop_last(), k);
        assert(s.drop_last().subrange(0, k) =~= s.subrange(0, k));
        lemma_digits_value_nonneg(s.drop_last());
    }
}

fn is_digit_byte(b: u8) -> (r: bool)
    ensures
        r == is_digit(b),
{
    0x30 <= b && b <= 0x39
}

/// Whether every byte of `s[lo..]` is a decimal digit.
fn all_digits_from(s: &Vec<u8>, lo: usize) -> (r: bool)
    requires
        lo <= s@.len(),
    ensures
        r == all_digits(s@.subrange(lo as int, s@.len() as int)),
{
    let mut i: usize = lo;
    while i < s.len()
        invariant
            lo <= i <= s@.len(),
            forall|k: int| lo <= k < i ==> is_digit(s@[k]),
        decreases s@.len() - i,
    {
        if !is_digit_byte(s[i]) {
            assert(!is_digit(s@.subrange(lo as int, s@.len() as int)[i - lo]));
            return false;
        }
        i = i + 1;
    }
    true
}

/// Value of the digits `s[lo..]`, or `None` when one is not a digit or the
/// value does not fit in `u64`.
fn digits_from(s: &Vec<u8>, lo: usize) -> (r: Option<u64>)
    requires
        lo <= s@.len(),
    ensures
        ({
            let d = s@.subrange(lo as int, s@.len() as int);
            r == (if all_digits(d) && digits_value(d) <= u64::MAX {
                Some(digits_value(d) as u64)
            } else {
                None::<u64>
            })
        }),
{
    let ghost d = s@.subrange(lo as int, s@.len() as int);
    let mut acc: u64 = 0;
    let mut i: usize = lo;
    while i < s.len()
        invariant
            lo <= i <= s@.len(),
            d == s@.subrange(lo as int, s@.len() as int),
            all_digits(s@.subrange(lo as int, i as int)),
            acc == digits_value(s@.subrange(lo as int, i as int)),
        decreases s@.len() - i,
    {
        let b = s[i];
        assert(s@.subrange(lo as int, i + 1).drop_last() =~= s@.subrange(lo as int, i as int));
        assert(d.subrange(0, i - lo) =~= s@.subrange(lo as int, i as int));
        if !is_digit_byte(b) {
            assert(!is_digit(d[i - lo]));
            return None;
        }
        assert(all_digits(s@.subrange(lo as int, i + 1)));
        let next = match acc.checked_mul(10) {
            None => None,
            Some(m) => m.checked_add((b - 0x30) as u64),
        };
        match next {
            None => {
                proof {
                    assert(d.subrange(0, i + 1 - lo) =~= s@.subrange(lo as int, i + 1));
                    if all_digits(d) {
                        lemma_prefix_value_le(d, i + 1 - lo);
                    }
                }
                return None;
            },
            Some(v) => {
                acc = v;
            },
        }
        i = i + 1;
    }
    assert(s@.subrange(lo as int, i as int) =~= d);
    Some(acc)
}

/// Parses an unsigned integer: an optional `+`, then decimal digits.
pub fn parse_u64(s: &Vec<u8>) -> (r: Option<u64>)
    ensures
        r == u64_of(s@),
{
    let lo: usize = if s.len() > 0 && s[0] == 0x2b { 1 } else { 0 };
    assert(unsigned_text(s@) =~= s@.subrange(lo as int, s@.len() as int));
    if lo == s.len() {
        return None;
    }
    digits_from(s, lo)
}

/// Exponents are read up to this magnitude; any larger one moves every
/// digit out of, or far past, the range of a `u64`.
pub const EXPONENT_CAP: u128 = 0x10_0000_0000_0000_0000_0000_0000;

proof fn lemma_pow10_grows(a: nat, b: nat)
    requires
        a <= b,
    ensures
        1 <= pow10(a) <= pow10(b),
    decreases b,
{
    if b > a {
        lemma_pow10_grows(a, (b - 1) as nat);
    } else {
        lemma_pow10_positive(a);
    }
}

proof fn lemma_pow10_positive(a: nat)
    ensures
        pow10(a) >= 1,
    decreases a,
{
    if a > 0 {
        lemma_pow10_positive((a - 1) as nat);
    }
}

proof fn lemma_zeros_value(s: Seq<u8>)
    requires
        forall|i: int| 0 <= i < s.len() ==> s[i] == 0x30,
    ensures
        digits_value(s) == 0,
    decreases s.len(),
{
    if s.len() > 0 {
        lemma_zeros_value(s.drop_last());
    }
}

/// Value of the digits `s[lo..]`, capped at `EXPONENT_CAP`.
fn digits_capped(s: &Vec<u8>, lo: usize) -> (r: u128)
    requires
        lo <= s@.len(),
        all_digits(s@.subrange(lo as int, s@.len() as int)),
    ensures
        r == (if digits_value(s@.subrange(lo as int, s@.len() as int)) < EXPONENT_CAP {
            digits_value(s@.subrange(lo as int, s@.len() as int))
        } else {
            EXPONENT_CAP as int
        }),
{
    let ghost d = s@.subrange(lo as int, s@.len() as int);
    let mut acc: u128 = 0;
    let mut i: usize = lo;
    while i < s.len()
        invariant
            lo <= i <= s@.len(),
            d == s@.subrange(lo as int, s@.len() as int),
            all_digits(d),
            acc == (if digits_value(s@.subrange(lo as int, i as int)) < EXPONENT_CAP {
                digits_value(s@.subrange(lo as int, i as int))
            } else {
                EXPONENT_CAP as int
            }),
        decreases s@.len() - i,
    {
        let b = s[i];
        let ghost pre = s@.subrange(lo as int, i as int);
        assert(s@.subrange(lo as int, i + 1).drop_last() =~= pre);
        assert(all_digits(pre));
        assert(is_digit(d[i - lo]));
        proof {
            lemma_digits_value_nonneg(pre);
        }
        if acc < EXPONENT_CAP {
            let next: u128 = acc * 10 + (b - 0x30) as u128;
            acc = if next < EXPONENT_CAP { next } else { EXPONENT_CAP };
        }
        i = i + 1;
    }
    assert(s@.subrange(lo as int, i as int) =~= d);
    acc
}

/// Parses a length in metres into micrometres.
#[verifier::rlimit(100)]
pub fn parse_micro(s: &Vec<u8>) -> (r: Option<u64>)
    ensures
        r == micro_of(s@),
{
    let lo: usize = if s.len() > 0 && s[0] == 0x2b { 1 } else { 0 };
    let t = slice(s, lo, s.len());
    assert(unsigned_text(s@) =~= t@);
    let mut lowered: Vec<u8> = Vec::new();
    let mut k: usize = 0;
    while k < t.len()
        invariant
            k <= t@.len(),
            lowered@ == lower_e(t@).subrange(0, k as int),
        decreases t@.len() - k,
    {
        let b: u8 = if t[k] == 0x45 { 0x65 } else { t[k] };
        lowered.push(b);
        assert(lowered@ =~= lower_e(t@).subrange(0, k + 1));
        k = k + 1;
    }
    assert(lowered@ =~= lower_e(t@));
    let halves = split_on(&lowered, 0x65);
    proof {
        lemma_split_nonempty(lowered@, 0x65);
        assert(views(halves@).len() == halves@.len());
    }
    if halves.len() > 2 {
        return None;
    }
    assert(halves@[0]@ == views(halves@)[0]);
    // The exponent's sign and capped magnitude.
    let mut negative = false;
    let mut magnitude: u128 = 0;
    if halves.len() == 2 {
        let et: &Vec<u8> = &halves[1];
        assert(et@ == views(halves@)[1]);
        let elo: usize = if et.len() > 0 && (et[0] == 0x2b || et[0] == 0x2d) { 1 } else { 0 };
        negative = elo == 1 && et[0] == 0x2d;
        assert(et@.subrange(elo as int, et@.len() as int) =~= (if elo == 1 { et@.drop_first() } else { et@ }));
        if elo == et.len() || !all_digits_from(et, elo) {
            return None;
        }
        magnitude = digits_capped(et, elo);
        proof {
            lemma_digits_value_nonneg(et@.subrange(elo as int, et@.len() as int));
        }
    }
    let ghost exp: int = if halves@.len() == 2 { exponent_of(views(halves@)[1]).unwrap() } else { 0 };
    assert(halves@.len() == 2 ==> exponent_of(views(halves@)[1]) is Some);
    assert(magnitude < EXPONENT_CAP ==> exp == (if negative { -(magnitude as int) } else { magnitude as int }));
    assert(magnitude == EXPONENT_CAP ==> (if negative { exp <= -(EXPONENT_CAP as int) } else { exp >= EXPONENT_CAP }));
    let parts = split_on(&halves[0], 0x2e);
    proof {
        lemma_split_nonempty(halves@[0]@, 0x2e);
        assert(views(parts@).len() == parts@.len());
    }
    if parts.len() > 2 {
        return None;
    }
    let whole: &Vec<u8> = &parts[0];
    assert(whole@ == views(parts@)[0]);
    let empty: Vec<u8> = Vec::new();
    let frac: &Vec<u8> = if parts.len() == 2 { &parts[1] } else { &empty };
    assert(frac@ == (if parts@.len() == 2 { views(parts@)[1] } else { Seq::<u8>::empty() }));
    assert(whole@.subrange(0, whole@.len() as int) =~= whole@);
    assert(frac@.subrange(0, frac@.len() as int) =~= frac@);
    if !all_digits_from(whole, 0) || !all_digits_from(frac, 0) || (whole.len() == 0 && frac.len() == 0) {
        return None;
    }
    // The mantissa's digits, and whether any is not zero.
    let mut digits: Vec<u8> = Vec::new();
    let mut nonzero: bool = false;
    let ghost mant = whole@ + frac@;
    let mut z: usize = 0;
    let mut m: usize = 0;
    while m < whole.len()
        invariant
            mant == whole@ + frac@,
            all_digits(whole@),
            m <= whole@.len(),
            digits@ == mant.subrange(0, m as int),
            nonzero ==> z < m && mant[z as int] != 0x30,
            !nonzero ==> forall|i: int| 0 <= i < m ==> mant[i] == 0x30,
        decreases whole@.len() - m,
    {
        let b: u8 = whole[m];
        assert(b == mant[m as int]);
        digits.push(b);
        if b != 0x30 && !nonzero {
            nonzero = true;
            z = m;
        }
        assert(digits@ =~= mant.subrange(0, m + 1));
        m = m + 1;
    }
    let mut f: usize = 0;
    while f < frac.len()
        invariant
            mant == whole@ + frac@,
            f <= frac@.len(),
            digits@ == mant.subrange(0, whole@.len() + f),
            nonzero ==> z < whole@.len() + f && mant[z as int] != 0x30,
            !nonzero ==> forall|i: int| 0 <= i < whole@.len() + f ==> mant[i] == 0x30,
        decreases frac@.len() - f,
    {
        let b: u8 = frac[f];
        assert(b == mant[whole@.len() + f]);
        digits.push(b);
        assert(digits@.len() == whole@.len() + f + 1);
        assert(digits@.len() == digits.len());
        if b != 0x30 && !nonzero {
            nonzero = true;
            z = whole.len() + f;
        }
        assert(digits@ =~= mant.subrange(0, whole@.len() + f + 1));
        f = f + 1;
    }
    assert(all_digits(mant));
    assert(digits@ =~= mant);
    let ghost p: int = whole.len() + exp + 6;
    let ghost value = digits_value(padded(mant, p));
    if !nonzero {
        proof {
            lemma_zeros_value(padded(mant, p));
        }
        return Some(0);
    }
    if negative && magnitude == EXPONENT_CAP {
        assert(padded(mant, p) =~= Seq::<u8>::empty());
        return Some(0);
    }
    let span: i128 = whole.len() as i128 + 6;
    let shift: i128 = if negative { -(magnitude as i128) } else { magnitude as i128 };
    let top: i128 = span + shift;
    assert(top <= p);
    assert(magnitude < EXPONENT_CAP ==> top == p);
    if top <= 0 {
        assert(padded(mant, p) =~= Seq::<u8>::empty());
        return Some(0);
    }
    let top: u128 = top as u128;
    assert(micro_of(s@) == (if value <= u64::MAX { Some(value as u64) } else { None::<u64> }));
    let mut acc: u64 = 0;
    let mut j: u128 = 0;
    let ghost first: int = -1;
    while j < top
        invariant
            all_digits(mant),
            digits@ == mant,
            z < mant.len(),
            mant[z as int] != 0x30,
            j <= top <= p,
            value == digits_value(padded(mant, p)),
            micro_of(s@) == (if value <= u64::MAX { Some(value as u64) } else { None::<u64> }),
            acc == digits_value(padded(mant, j as int)),
            first >= 0 ==> first < j && first <= z && acc >= pow10((j - first - 1) as nat),
            first < 0 ==> j <= z && acc == 0,
        decreases top - j,
    {
        let b: u8 = if j < digits.len() as u128 { digits[j as usize] } else { 0x30 };
        let ghost pre = padded(mant, j as int);
        assert(padded(mant, j + 1).drop_last() =~= pre);
        assert(padded(mant, j + 1).last() == b);
        assert(all_digits(padded(mant, j + 1)));
        assert(is_digit(b));
        proof {
            lemma_digits_value_nonneg(pre);
            if first >= 0 {
                assert(pow10((j + 1 - first - 1) as nat) == 10 * pow10((j - first - 1) as nat));
            }
        }
        let next = match acc.checked_mul(10) {
            None => None,
            Some(t) => t.checked_add((b - 0x30) as u64),
        };
        match next {
            None => {
                proof {
                    assert(all_digits(padded(mant, p)));
                    assert(padded(mant, p).subrange(0, j + 1) =~= padded(mant, j + 1));
                    lemma_prefix_value_le(padded(mant, p), j + 1);
                    assert(digits_value(padded(mant, j + 1)) == acc * 10 + (b - 0x30));
                    assert(acc * 10 + (b - 0x30) > u64::MAX);
                    assert(value > u64::MAX);
                }
                return None;
            },
            Some(v) => {
                proof {
                    if first < 0 && b != 0x30 {
                        first = j as int;
                        assert(pow10(0) == 1);
                    } else if first < 0 {
                        assert(j + 1 <= z) by {
                            if j == z {
                                assert(b == mant[z as int]);
                            }
                        }
                    }
                }
                acc = v;
            },
        }
        j = j + 1;
    }
    proof {
        if magnitude == EXPONENT_CAP {
            assert(mant.len() == digits.len());
            assert(first >= 0);
            reveal_with_fuel(pow10, 21);
            assert(pow10(20) > u64::MAX);
            lemma_pow10_grows(20, (j - first - 1) as nat);
            assert(false);
        }
    }
    assert(top == p);
    Some(acc)
}

/// Parses a comma-separated list of unsigned integers.
pub fn parse_requests(s: &Vec<u8>) -> (r: Option<Vec<u64>>)
    ensures
        r matches Some(v) ==> requests_of(s@) == Some(v@),
        r is None ==> requests_of(s@) is None,
{
    let parts = split_on(s, 0x2c);
    let ghost ps = split_spec(s@, 0x2c);
    let mut out: Vec<u64> = Vec::new();
    let mut i: usize = 0;
    while i < parts.len()
        invariant
            views(parts@) == ps,
            ps == split_spec(s@, 0x2c),
            i <= parts@.len(),
            out@.len() == i,
            forall|k: int| 0 <= k < i ==> u64_of(ps[k]) == Some(#[trigger] out@[k]),
        decreases parts@.len() - i,
    {
        assert(parts@[i as int]@ == ps[i as int]);
        match parse_u64(&parts[i]) {
            None => {
                assert(!all_u64(ps));
                return None;
            },
            Some(v) => {
                out.push(v);
            },
        }
        i = i + 1;
    }
    assert forall|k: int| 0 <= k < ps.len() implies u64_of(#[trigger] ps[k]) is Some by {
        assert(u64_of(ps[k]) == Some(out@[k]));
    }
    assert(ps.map_values(|p: Seq<u8>| u64_of(p).unwrap()) =~= out@);
    Some(out)
}

} // verus!

verus! {

/// Label of the first line of a configuration file.
pub open spec fn count_label() -> Seq<u8> {
    seq!['f' as u8, 'l' as u8, 'o' as u8, 'o' as u8, 'r' as u8, '_' as u8, 'c' as u8, 'o' as u8, 'u' as u8, 'n' as u8, 't' as u8]
}

/// Label of the second line.
pub open spec fn height_label() -> Seq<u8> {
    seq!['f' as u8, 'l' as u8, 'o' as u8, 'o' as u8, 'r' as u8, '_' as u8, 'h' as u8, 'e' as u8, 'i' as u8, 'g' as u8, 'h' as u8, 't' as u8]
}

/// Label of the third line.
pub open spec fn requests_label() -> Seq<u8> {
    seq![
        'f' as u8, 'l' as u8, 'o' as u8, 'o' as u8, 'r' as u8, '_' as u8, 'r' as u8, 'e' as u8, 'q' as u8, 'u' as u8, 'e' as u8, 's' as u8, 't' as u8, 's' as u8
    ]
}

/// What follows the first occurrence of `label` in `line`, trimmed.
pub open spec fn field_text(line: Seq<u8>, label: Seq<u8>) -> Option<Seq<u8>> {
    if exists|i: int| occurs_at(line, label, i) {
        let i = choose|i: int| first_occurrence(line, label, i);
        Some(trim_spec(line.subrange(i + label.len(), line.len() as int)))
    } else {
        None
    }
}

/// Why a configuration file was refused. Lines are numbered from 0.
#[derive(Clone, Copy, Debug, PartialEq, Eq, Structural)]
pub enum ConfigError {
    /// The file does not have exactly three lines; it has this many.
    LineCount(usize),
    /// The line does not hold its label.
    MissingLabel(usize),
    /// The value after the label does not parse.
    BadValue(usize),
}

/// The building and requests that a configuration file describes.
#[derive(Debug)]
pub struct Config {
    pub floor_count: u64,
    /// Micrometres.
    pub floor_height: u64,
    pub floor_requests: Vec<u64>,
}

/// A configuration file: exactly three newline-separated lines holding
/// `floor_count <integer>`, `floor_height <metres>` and
/// `floor_requests <integer>,<integer>,...`; each value is what follows the
/// first occurrence of its label, trimmed. Lines are read in order and the
/// first fault found is reported.
pub open spec fn config_spec(text: Seq<u8>) -> Result<(u64, u64, Seq<u64>), ConfigError> {
    let lines = split_spec(text, 0x0a);
    if lines.len() != 3 {
        Err(ConfigError::LineCount(lines.len() as usize))
    } else {
        match field_text(lines[0], count_label()) {
            None => Err(ConfigError::MissingLabel(0)),
            Some(t0) => match u64_of(t0) {
                None => Err(ConfigError::BadValue(0)),
                Some(count) => match field_text(lines[1], height_label()) {
                    None => Err(ConfigError::MissingLabel(1)),
                    Some(t1) => match micro_of(t1) {
                        None => Err(ConfigError::BadValue(1)),
                        Some(height) => match field_text(lines[2], requests_label()) {
                            None => Err(ConfigError::MissingLabel(2)),
                            Some(t2) => match requests_of(t2) {
                                None => Err(ConfigError::BadValue(2)),
                                Some(requests) => Ok((count, height, requests)),
                            },
                        },
                    },
                },
            },
        }
    }
}

fn label(k: usize) -> (r: Vec<u8>)
    requires
        k < 3,
    ensures
        r@ == (if k == 0 { count_label() } else if k == 1 { height_label() } else { requests_label() }),
{
    let r: Vec<u8> = if k == 0 {
        vec!['f' as u8, 'l' as u8, 'o' as u8, 'o' as u8, 'r' as u8, '_' as u8, 'c' as u8, 'o' as u8, 'u' as u8, 'n' as u8, 't' as u8]
    } else if k == 1 {
        vec!['f' as u8, 'l' as u8, 'o' as u8, 'o' as u8, 'r' as u8, '_' as u8, 'h' as u8, 'e' as u8, 'i' as u8, 'g' as u8, 'h' as u8, 't' as u8]
    } else {
        vec!['f' as u8, 'l' as u8, 'o' as u8, 'o' as u8, 'r' as u8, '_' as u8, 'r' as u8, 'e' as u8, 'q' as u8, 'u' as u8, 'e' as u8, 's' as u8, 't' as u8, 's' as u8]
    };
    assert(r@ =~= (if k == 0 { count_label() } else if k == 1 { height_label() } else { requests_label() }));
    r
}

/// The trimmed text after the first occurrence of `label` in `line`.
pub fn field(line: &Vec<u8>, label: &Vec<u8>) -> (r: Option<Vec<u8>>)
    ensures
        r matches Some(v) ==> field_text(line@, label@) == Some(v@),
        r is None ==> field_text(line@, label@) is None,
{
    match find(line, label) {
        None => None,
        Some(i) => {
            proof {
                let c = choose|c: int| first_occurrence(line@, label@, c);
                assert(first_occurrence(line@, label@, c));
                if c < i {
                    assert(!occurs_at(line@, label@, c));
                } else if i < c {
                    assert(!occurs_at(line@, label@, i as int));
                }
                assert(c == i);
                assert(occurs_at(line@, label@, i as int));
                assert(line@.len() == line.len());
            }
            let rest = slice(line, i + label.len(), line.len());
            Some(trim(&rest))
        },
    }
}

/// Reads a configuration file.
pub fn parse_config(text: &Vec<u8>) -> (r: Result<Config, ConfigError>)
    ensures
        r matches Ok(c) ==> config_spec(text@) == Ok::<(u64, u64, Seq<u64>), ConfigError>(
            (c.floor_count, c.floor_height, c.floor_requests@),
        ),
        r matches Err(e) ==> config_spec(text@) == Err::<(u64, u64, Seq<u64>), ConfigError>(e),
{
    let lines = split_on(text, 0x0a);
    assert(views(lines@).len() == lines@.len());
    if lines.len() != 3 {
        return Err(ConfigError::LineCount(lines.len()));
    }
    assert(lines@[0]@ == split_spec(text@, 0x0a)[0]);
    assert(lines@[1]@ == split_spec(text@, 0x0a)[1]);
    assert(lines@[2]@ == split_spec(text@, 0x0a)[2]);
    let t0 = match field(&lines[0], &label(0)) {
        None => return Err(ConfigError::MissingLabel(0)),
        Some(t) => t,
    };
    let floor_count = match parse_u64(&t0) {
        None => return Err(ConfigError::BadValue(0)),
        Some(v) => v,
    };
    let t1 = match field(&lines[1], &label(1)) {
        None => return Err(ConfigError::MissingLabel(1)),
        Some(t) => t,
    };
    let floor_height = match parse_micro(&t1) {
        None => return Err(ConfigError::BadValue(1)),
        Some(v) => v,
    };
    let t2 = match field(&lines[2], &label(2)) {
        None => return Err(ConfigError::MissingLabel(2)),
        Some(t) => t,
    };
    let floor_requests = match parse_requests(&t2) {
        None => return Err(ConfigError::BadValue(2)),
        Some(v) => v,
    };
    Ok(Config { floor_count, floor_height, floor_requests })
}

} // verus!
