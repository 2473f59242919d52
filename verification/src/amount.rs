//! Fixed-point monetary values with four implied decimal places, with
//! verified conversion to and from their decimal text form.

use vstd::prelude::*;
use vstd::slice::slice_subrange;

use crate::digits::all_digits;
use crate::digits::dec_bytes;
use crate::digits::digits_val;
use crate::digits::is_digit;
use crate::digits::lemma_dec_bytes_digits;
use crate::digits::lemma_digits_val_dec_bytes;
use crate::digits::parse_u64;
use crate::digits::render_u64;
use crate::digits::NINE;
use crate::digits::ZERO;

verus! {

/// How many scaled units make one whole currency unit.
pub const SCALE: u64 = 10000;

/// The ASCII code of the decimal point.
pub const DOT: u8 = 46;

/// The ASCII code of the digit `5`, the rounding threshold.
pub const FIVE: u8 = 53;

/// The index of the first decimal point in `s`, or `s.len()` when there is
/// none.
pub open spec fn first_dot(s: Seq<u8>) -> int
    decreases s.len(),
{
    if s.len() == 0 {
        0
    } else if s[0] == DOT {
        0
    } else {
        1 + first_dot(s.drop_first())
    }
}

/// `first_dot` points at the first decimal point: nothing before it is a
/// point, and it is a point unless the string has none.
pub proof fn lemma_first_dot_char(s: Seq<u8>)
    ensures
        0 <= first_dot(s) <= s.len(),
        forall|j: int| 0 <= j < first_dot(s) ==> s[j] != DOT,
        first_dot(s) < s.len() ==> s[first_dot(s)] == DOT,
    decreases s.len(),
{
    if s.len() > 0 && s[0] != DOT {
        lemma_first_dot_char(s.drop_first());
        assert forall|j: int| 0 <= j < first_dot(s) implies s[j] != DOT by {
            if j > 0 {
                assert(s.drop_first()[j - 1] != DOT);
            }
        }
    }
}

/// The first four fractional digits of `fr`, read as a count of 1/10000
/// units; missing digits count as zero.
pub open spec fn frac_scaled(fr: Seq<u8>) -> int {
    if fr.len() >= 4 {
        digits_val(fr.take(4))
    } else if fr.len() == 3 {
        digits_val(fr) * 10
    } else if fr.len() == 2 {
        digits_val(fr) * 100
    } else if fr.len() == 1 {
        digits_val(fr) * 1000
    } else {
        0
    }
}

/// One extra scaled unit when the fractional digits beyond the fourth
/// round half away from zero to the next 1/10000 unit.
pub open spec fn round_up(fr: Seq<u8>) -> int {
    if fr.len() >= 5 && fr[4] >= FIVE {
        1
    } else {
        0
    }
}

/// The scaled value a decimal text denotes: one or more integer digits,
/// optionally followed by a decimal point and any number of fractional
/// digits; fractional digits beyond the fourth round half away from zero.
/// `None` when the text has any other shape.
pub open spec fn amount_of_text(s: Seq<u8>) -> Option<int> {
    let p = first_dot(s);
    if p == 0 {
        Option::None
    } else {
        let ip = s.take(p);
        if !all_digits(ip) {
            Option::None
        } else if p == s.len() {
            Option::Some(digits_val(ip) * 10000)
        } else {
            let fr = s.skip(p + 1);
            if !all_digits(fr) {
                Option::None
            } else {
                Option::Some(digits_val(ip) * 10000 + frac_scaled(fr) + round_up(fr))
            }
        }
    }
}

/// The canonical decimal text of the scaled value `v`: the whole part,
/// a point, and exactly four fractional digits.
pub open spec fn amount_bytes(v: int) -> Seq<u8>
    recommends
        v >= 0,
{
    let q = v / 10000;
    let f = v % 10000;
    dec_bytes(q) + seq![
        DOT,
        (ZERO + f / 1000) as u8,
        (ZERO + (f / 100) % 10) as u8,
        (ZERO + (f / 10) % 10) as u8,
        (ZERO + f % 10) as u8,
    ]
}

/// A non-negative monetary value, stored as a scaled integer with four
/// implied decimal places: the decimal value 12.3456 is stored as 123456.
#[derive(Clone, Copy, Debug, PartialEq, Eq, Structural)]
pub struct Amount(pub u64);

impl View for Amount {
    type V = int;

    open spec fn view(&self) -> int {
        self.0 as int
    }
}

impl Amount {
    /// The zero value.
    pub fn new() -> (r: Amount)
        ensures
            r@ == 0,
    {
        Amount(0)
    }

    /// The value holding exactly `raw` scaled units (`raw` = 10000 times the
    /// whole-currency value).
    pub fn from_scaled(raw: u64) -> (r: Amount)
        ensures
            r@ == raw,
    {
        Amount(raw)
    }

    /// The scaled integer this value stores.
    pub fn scaled(&self) -> (r: u64)
        ensures
            r == self@,
    {
        self.0
    }

    /// Parse a decimal text into a monetary value, rounding digits beyond
    /// the fourth fractional place half away from zero. Fails exactly when
    /// the text is not `digits [ '.' digits* ]` or the value does not fit
    /// the scaled-integer range.
    pub fn from_decimal(s: &[u8]) -> (r: Option<Amount>)
        ensures
            match r {
                Some(a) => amount_of_text(s@) == Some(a@),
                None => match amount_of_text(s@) {
                    Some(v) => v > u64::MAX,
                    None => true,
                },
            },
    {
        let mut p: usize = 0;
        while p < s.len() && s[p] != DOT
            invariant
                0 <= p <= s@.len(),
                forall|j: int| 0 <= j < p ==> s@[j] != DOT,
            decreases s@.len() - p,
        {
            p = p + 1;
        }
        proof {
            lemma_first_dot_char(s@);
            let fd = first_dot(s@);
            if fd < p {
                assert(s@[fd] != DOT);
                assert(false);
            }
            if p < fd {
                assert(s@[p as int] != DOT);
                assert(false);
            }
            assert(fd == p);
        }
        if p == 0 {
            return None;
        }
        let ip = slice_subrange(s, 0, p);
        proof {
            assert(s@.take(p as int) =~= ip@);
        }
        let q = match parse_u64(ip) {
            Some(q) => q,
            None => {
                proof {
                    if all_digits(ip@) {
                        lemma_value_large_when_whole_large(s@, p as int);
                    }
                }
                return None;
            },
        };
        if p == s.len() {
            return match q.checked_mul(SCALE) {
                Some(v) => Some(Amount(v)),
                None => None,
            };
        }
        let fr = slice_subrange(s, p + 1, s.len());
        proof {
            assert(s@.skip(p + 1) =~= fr@);
        }
        let mut k: usize = 0;
        while k < fr.len()
            invariant
                1 <= p < s@.len(),
                first_dot(s@) == p as int,
                all_digits(s@.take(p as int)),
                fr@ == s@.skip(p as int + 1),
                0 <= k <= fr@.len(),
                forall|j: int| 0 <= j < k ==> is_digit(#[trigger] fr@[j]),
            decreases fr@.len() - k,
        {
            let b = fr[k];
            if b < ZERO || b > NINE {
                assert(!is_digit(fr@[k as int]));
                return None;
            }
            k = k + 1;
        }
        assert(all_digits(fr@));
        let f = frac_value(fr);
        let extra: u64 = if fr.len() >= 5 && fr[4] >= FIVE {
            1
        } else {
            0
        };
        proof {
            lemma_frac_scaled_bounds(fr@);
        }
        match q.checked_mul(SCALE) {
            Some(m) => match m.checked_add(f + extra) {
                Some(v) => Some(Amount(v)),
                None => None,
            },
            None => {
                proof {
                    lemma_frac_scaled_bounds(fr@);
                }
                None
            },
        }
    }

    /// Render this value as its canonical decimal text: the whole part, a
    /// point, and exactly four fractional digits.
    pub fn to_decimal(&self) -> (r: Vec<u8>)
        ensures
            r@ == amount_bytes(self@),
    {
        let q = self.0 / SCALE;
        let f = self.0 % SCALE;
        let mut v = render_u64(q);
        v.push(DOT);
        v.push(ZERO + (f / 1000) as u8);
        v.push(ZERO + ((f / 100) % 10) as u8);
        v.push(ZERO + ((f / 10) % 10) as u8);
        v.push(ZERO + (f % 10) as u8);
        proof {
            assert(v@ =~= amount_bytes(self@));
        }
        v
    }
}

/// The value of the first four fractional digits, scaled to 1/10000 units.
fn frac_value(fr: &[u8]) -> (r: u64)
    requires
        all_digits(fr@),
    ensures
        r == frac_scaled(fr@),
        r <= 9999,
{
    let l = fr.len();
    if l == 0 {
        0
    } else if l == 1 {
        proof {
            unfold_digits_val_4(fr@);
        }
        (fr[0] - ZERO) as u64 * 1000
    } else if l == 2 {
        proof {
            unfold_digits_val_4(fr@);
        }
        ((fr[0] - ZERO) as u64 * 10 + (fr[1] - ZERO) as u64) * 100
    } else if l == 3 {
        proof {
            unfold_digits_val_4(fr@);
        }
        (((fr[0] - ZERO) as u64 * 10 + (fr[1] - ZERO) as u64) * 10 + (fr[2] - ZERO) as u64) * 10
    } else {
        proof {
            unfold_digits_val_4(fr@.take(4));
            assert(fr@.take(4).take(1) =~= fr@.take(1));
            assert(fr@.take(4).take(2) =~= fr@.take(2));
            assert(fr@.take(4).take(3) =~= fr@.take(3));
        }
        ((((fr[0] - ZERO) as u64 * 10 + (fr[1] - ZERO) as u64) * 10 + (fr[2] - ZERO) as u64) * 10
            + (fr[3] - ZERO) as u64)
    }
}

/// Unfold `digits_val` on a digit string of at most four digits, one take
/// at a time.
proof fn unfold_digits_val_4(s: Seq<u8>)
    requires
        s.len() <= 4,
    ensures
        s.len() >= 1 ==> digits_val(s.take(1)) == s[0] - ZERO,
        s.len() >= 2 ==> digits_val(s.take(2)) == (s[0] - ZERO) * 10 + (s[1] - ZERO),
        s.len() >= 3 ==> digits_val(s.take(3)) == ((s[0] - ZERO) * 10 + (s[1] - ZERO)) * 10 + (
        s[2] - ZERO),
        s.len() >= 4 ==> digits_val(s.take(4)) == (((s[0] - ZERO) * 10 + (s[1] - ZERO)) * 10 + (
        s[2] - ZERO)) * 10 + (s[3] - ZERO),
        s.len() == 1 ==> digits_val(s) == digits_val(s.take(1)),
        s.len() == 2 ==> digits_val(s) == digits_val(s.take(2)),
        s.len() == 3 ==> digits_val(s) == digits_val(s.take(3)),
{
    assert(s.take(0) =~= Seq::<u8>::empty());
    assert(digits_val(Seq::<u8>::empty()) == 0);
    if s.len() >= 1 {
        assert(s.take(1).drop_last() =~= s.take(0));
        assert(s.take(1).last() == s[0]);
        assert(digits_val(s.take(1)) == s[0] - ZERO);
    }
    if s.len() >= 2 {
        assert(s.take(2).drop_last() =~= s.take(1));
        assert(s.take(2).last() == s[1]);
        assert(digits_val(s.take(2)) == digits_val(s.take(1)) * 10 + (s[1] - ZERO));
    }
    if s.len() >= 3 {
        assert(s.take(3).drop_last() =~= s.take(2));
        assert(s.take(3).last() == s[2]);
        assert(digits_val(s.take(3)) == digits_val(s.take(2)) * 10 + (s[2] - ZERO));
    }
    if s.len() >= 4 {
        assert(s.take(4).drop_last() =~= s.take(3));
        assert(s.take(4).last() == s[3]);
        assert(digits_val(s.take(4)) == digits_val(s.take(3)) * 10 + (s[3] - ZERO));
    }
    if s.len() <= 4 {
        assert(s.take(s.len() as int) =~= s);
    }
}

/// The scaled fraction read from a run of digits always lies between 0
/// and 9999.
pub proof fn lemma_frac_scaled_bounds(fr: Seq<u8>)
    requires
        all_digits(fr),
    ensures
        0 <= frac_scaled(fr) <= 9999,
        0 <= round_up(fr) <= 1,
{
    if fr.len() >= 4 {
        unfold_digits_val_4(fr.take(4));
        assert(fr.take(4).take(1) =~= fr.take(1));
        assert(fr.take(4).take(2) =~= fr.take(2));
        assert(fr.take(4).take(3) =~= fr.take(3));
    } else {
        unfold_digits_val_4(fr);
    }
}

/// When the whole part alone already denotes more than the scaled range
/// holds, any amount text built around it denotes more as well.
proof fn lemma_value_large_when_whole_large(s: Seq<u8>, p: int)
    requires
        first_dot(s) == p,
        1 <= p <= s.len(),
        all_digits(s.take(p)),
        digits_val(s.take(p)) > u64::MAX,
    ensures
        match amount_of_text(s) {
            Some(v) => v > u64::MAX,
            None => true,
        },
{
    if p < s.len() {
        let fr = s.skip(p + 1);
        if all_digits(fr) {
            lemma_frac_scaled_bounds(fr);
        }
    }
}

/// Round-trip law: any representable monetary value, rendered as decimal
/// text, parses back to exactly itself.
pub proof fn lemma_decimal_round_trip(v: u64)
    ensures
        amount_of_text(amount_bytes(v as int)) == Some(v as int),
{
    let q = v as int / 10000;
    let f = v as int % 10000;
    let ib = dec_bytes(q);
    let frb = seq![
        (ZERO + f / 1000) as u8,
        (ZERO + (f / 100) % 10) as u8,
        (ZERO + (f / 10) % 10) as u8,
        (ZERO + f % 10) as u8,
    ];
    let s = amount_bytes(v as int);
    lemma_dec_bytes_digits(q);
    assert(s =~= ib + seq![DOT] + frb);
    lemma_first_dot_char(s);
    let p = first_dot(s);
    assert(s[ib.len() as int] == DOT);
    if p < ib.len() {
        assert(s[p] == ib[p]);
        assert(is_digit(ib[p]));
        assert(false);
    }
    if p > ib.len() {
        assert(false);
    }
    assert(p == ib.len());
    assert(s.take(p) =~= ib);
    assert(p < s.len());
    let fr = s.skip(p + 1);
    assert(fr =~= frb);
    assert(all_digits(frb));
    lemma_digits_val_dec_bytes(q);
    assert(frb.take(4) =~= frb);
    unfold_digits_val_4(frb);
    assert(digits_val(frb) == ((((f / 1000)) * 10 + (f / 100) % 10) * 10 + (f / 10) % 10) * 10 + f
        % 10);
    assert(1000 * (f / 1000) + 100 * ((f / 100) % 10) + 10 * ((f / 10) % 10) + f % 10 == f);
    assert(frac_scaled(fr) == f);
    assert(round_up(fr) == 0);
    assert(q * 10000 + f == v as int);
}

} // verus!
