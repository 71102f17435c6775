use crate::scalar::{Lawful, Scalar};
use vstd::prelude::*;
use vstd::string::StringExecFns;

verus! {

/// A decimal number with six places after the point, held as a count of
/// millionths.
///
/// The arithmetic is exact as long as a result has six places and lies
/// within the range of the count; a product is cut off after the sixth
/// place, towards zero, and a result beyond the range is the end of the
/// range on its side.
#[derive(Clone, Copy, Debug, PartialEq, Eq)]
pub struct Fixed {
    pub millionths: i64,
}

/// Millionths in one.
pub const ONE: i64 = 1_000_000;

/// The count nearest to `v` that the range holds.
pub open spec fn saturated(v: int) -> i64 {
    if v > i64::MAX {
        i64::MAX
    } else if v < i64::MIN {
        i64::MIN
    } else {
        v as i64
    }
}

/// `v / unit` without its fraction.
pub open spec fn toward_zero(v: int, unit: int) -> int
    recommends
        unit > 0,
{
    if v >= 0 {
        v / unit
    } else {
        -((-v) / unit)
    }
}

/// The multiple of `unit` nearest to `v`; of two that are equally near,
/// the one farther from zero.
pub open spec fn nearest_multiple(v: int, unit: int) -> int
    recommends
        unit > 0,
{
    if v >= 0 {
        ((v + unit / 2) / unit) * unit
    } else {
        -(((-v + unit / 2) / unit) * unit)
    }
}

/// Ten to the power of `k`.
pub open spec fn ten_to(k: nat) -> int
    decreases k,
{
    if k == 0 {
        1
    } else {
        10 * ten_to((k - 1) as nat)
    }
}

proof fn lemma_ten_to_grows(k: nat)
    requires
        k >= 20,
    ensures
        ten_to(k) >= 100_000_000_000_000_000_000,
    decreases k,
{
    if k == 20 {
        reveal_with_fuel(ten_to, 21);
    } else {
        lemma_ten_to_grows((k - 1) as nat);
    }
}

proof fn lemma_ten_to_is_monotone(a: nat, b: nat)
    requires
        a <= b,
    ensures
        1 <= ten_to(a) <= ten_to(b),
    decreases b,
{
    if a < b {
        lemma_ten_to_is_monotone(a, (b - 1) as nat);
    } else if a > 0 {
        lemma_ten_to_is_monotone((a - 1) as nat, (b - 1) as nat);
    }
}

proof fn lemma_coarse_unit_rounds_to_zero(v: int, unit: int)
    requires
        i64::MIN <= v <= i64::MAX,
        unit >= 100_000_000_000_000_000_000,
    ensures
        nearest_multiple(v, unit) == 0,
{
    let m = if v >= 0 {
        v
    } else {
        -v
    };
    assert((m + unit / 2) / unit == 0) by (nonlinear_arith)
        requires
            0 <= m <= 0x8000_0000_0000_0000,
            unit >= 100_000_000_000_000_000_000,
    ;
}

/// The number of thousandths nearest to `millionths` millionths; of two
/// that are equally near, the one farther from zero.
pub open spec fn thousandths(millionths: int) -> int {
    if millionths >= 0 {
        (millionths + 500) / 1000
    } else {
        -((-millionths + 500) / 1000)
    }
}

/// `|v|`.
pub open spec fn magnitude_of(v: int) -> nat {
    if v >= 0 {
        v as nat
    } else {
        (-v) as nat
    }
}

/// The character for the digit `d`.
pub open spec fn digit(d: nat) -> char
    recommends
        d < 10,
{
    if d == 0 {
        '0'
    } else if d == 1 {
        '1'
    } else if d == 2 {
        '2'
    } else if d == 3 {
        '3'
    } else if d == 4 {
        '4'
    } else if d == 5 {
        '5'
    } else if d == 6 {
        '6'
    } else if d == 7 {
        '7'
    } else if d == 8 {
        '8'
    } else {
        '9'
    }
}

/// The digits of `n` in base ten, the leading one first, without leading
/// zeros; `0` for zero.
pub open spec fn digits(n: nat) -> Seq<char>
    decreases n,
{
    if n < 10 {
        seq![digit(n)]
    } else {
        digits(n / 10).push(digit(n % 10))
    }
}

/// A minus sign for a negative number, nothing otherwise.
pub open spec fn sign_text(v: int) -> Seq<char> {
    if v < 0 {
        seq!['-']
    } else {
        Seq::empty()
    }
}

/// A number of thousandths in print: its sign if it is negative, the
/// digits before the point, the point, and three digits after it.
pub open spec fn thousandths_text(v: int) -> Seq<char> {
    let count = magnitude_of(v);
    sign_text(v) + digits(count / 1000) + seq![
        '.',
        digit(count / 100 % 10),
        digit(count / 10 % 10),
        digit(count % 10),
    ]
}

fn digit_text(d: u64) -> (r: &'static str)
    requires
        d < 10,
    ensures
        r@ == seq![digit(d as nat)],
{
    proof {
        reveal_strlit("0");
        reveal_strlit("1");
        reveal_strlit("2");
        reveal_strlit("3");
        reveal_strlit("4");
        reveal_strlit("5");
        reveal_strlit("6");
        reveal_strlit("7");
        reveal_strlit("8");
        reveal_strlit("9");
    }
    if d == 0 {
        "0"
    } else if d == 1 {
        "1"
    } else if d == 2 {
        "2"
    } else if d == 3 {
        "3"
    } else if d == 4 {
        "4"
    } else if d == 5 {
        "5"
    } else if d == 6 {
        "6"
    } else if d == 7 {
        "7"
    } else if d == 8 {
        "8"
    } else {
        "9"
    }
}

fn append_digits(text: &mut String, n: u64)
    ensures
        final(text)@ == old(text)@ + digits(n as nat),
    decreases n,
{
    if n >= 10 {
        append_digits(text, n / 10);
    }
    text.append(digit_text(n % 10));
}

fn saturate(v: i128) -> (r: i64)
    ensures
        r == saturated(v as int),
{
    if v > i64::MAX as i128 {
        i64::MAX
    } else if v < i64::MIN as i128 {
        i64::MIN
    } else {
        v as i64
    }
}

impl Fixed {
    /// The number of `millionths` millionths.
    pub fn from_millionths(millionths: i64) -> (r: Fixed)
        ensures
            r.millionths == millionths,
    {
        Fixed { millionths }
    }
}

impl Scalar for Fixed {
    open spec fn hundredths(n: int) -> Fixed {
        Fixed { millionths: saturated(n * 10_000) }
    }

    open spec fn plus(self, rhs: Fixed) -> Fixed {
        Fixed { millionths: saturated(self.millionths + rhs.millionths) }
    }

    open spec fn minus(self, rhs: Fixed) -> Fixed {
        Fixed { millionths: saturated(self.millionths - rhs.millionths) }
    }

    open spec fn times(self, rhs: Fixed) -> Fixed {
        Fixed {
            millionths: saturated(toward_zero(self.millionths * rhs.millionths, ONE as int)),
        }
    }

    open spec fn magnitude(self) -> Fixed {
        Fixed {
            millionths: saturated(
                if self.millionths < 0 {
                    -self.millionths
                } else {
                    self.millionths as int
                },
            ),
        }
    }

    open spec fn rounded(self, precision: int) -> Fixed {
        if precision >= 6 {
            self
        } else {
            Fixed {
                millionths: saturated(
                    nearest_multiple(self.millionths as int, ten_to((6 - precision) as nat)),
                ),
            }
        }
    }

    open spec fn exceeds(self, rhs: Fixed) -> bool {
        self.millionths > rhs.millionths
    }

    open spec fn text(self) -> Seq<char> {
        thousandths_text(thousandths(self.millionths as int))
    }

    fn from_hundredths(n: i32) -> (r: Fixed) {
        Fixed { millionths: (n as i64) * 10_000 }
    }

    fn sum(&self, rhs: &Fixed) -> (r: Fixed) {
        Fixed { millionths: saturate(self.millionths as i128 + rhs.millionths as i128) }
    }

    fn difference(&self, rhs: &Fixed) -> (r: Fixed) {
        Fixed { millionths: saturate(self.millionths as i128 - rhs.millionths as i128) }
    }

    fn product(&self, rhs: &Fixed) -> (r: Fixed) {
        let a = self.millionths as i128;
        let b = rhs.millionths as i128;
        assert(-0x4000_0000_0000_0000_0000_0000_0000_0000 <= a * b
            <= 0x4000_0000_0000_0000_0000_0000_0000_0000) by (nonlinear_arith)
            requires
                -0x8000_0000_0000_0000 <= a <= 0x8000_0000_0000_0000,
                -0x8000_0000_0000_0000 <= b <= 0x8000_0000_0000_0000,
        ;
        let exact = a * b;
        let cut = if exact >= 0 {
            exact / (ONE as i128)
        } else {
            -((-exact) / (ONE as i128))
        };
        Fixed { millionths: saturate(cut) }
    }

    fn abs(&self) -> (r: Fixed) {
        if self.millionths < 0 {
            Fixed { millionths: saturate(-(self.millionths as i128)) }
        } else {
            Fixed { millionths: self.millionths }
        }
    }

    fn round_to(&self, precision: i32) -> (r: Fixed) {
        if precision >= 6 {
            return *self;
        }
        let places: i64 = 6 - precision as i64;
        if places >= 20 {
            proof {
                lemma_ten_to_grows(places as nat);
                lemma_coarse_unit_rounds_to_zero(self.millionths as int, ten_to(places as nat));
            }
            return Fixed { millionths: 0 };
        }
        let mut unit: i128 = 1;
        let mut k: i64 = 0;
        proof {
            reveal_with_fuel(ten_to, 20);
        }
        while k < places
            invariant
                0 <= k <= places < 20,
                unit == ten_to(k as nat),
                1 <= unit <= ten_to(19),
                ten_to(19) == 10_000_000_000_000_000_000,
            decreases places - k,
        {
            proof {
                lemma_ten_to_is_monotone((k + 1) as nat, 19);
            }
            unit = unit * 10;
            k += 1;
        }
        let whole = if self.millionths >= 0 {
            self.millionths as i128
        } else {
            -(self.millionths as i128)
        };
        let steps = (whole + unit / 2) / unit;
        assert(0 <= steps * unit <= whole + unit / 2) by (nonlinear_arith)
            requires
                steps == (whole + unit / 2) as int / (unit as int),
                unit >= 1,
                whole >= 0,
        ;
        let near = steps * unit;
        if self.millionths >= 0 {
            Fixed { millionths: saturate(near) }
        } else {
            Fixed { millionths: saturate(-near) }
        }
    }

    fn greater_than(&self, rhs: &Fixed) -> (r: bool) {
        self.millionths > rhs.millionths
    }

    fn to_text(&self) -> (r: String) {
        let whole = if self.millionths >= 0 {
            self.millionths as i128
        } else {
            -(self.millionths as i128)
        };
        let count = ((whole + 500) / 1000) as u64;
        let mut r = if self.millionths < 0 && count > 0 {
            String::from_str("-")
        } else {
            String::new()
        };
        proof {
            reveal_strlit("-");
            reveal_strlit(".");
        }
        append_digits(&mut r, count / 1000);
        r.append(".");
        r.append(digit_text(count / 100 % 10));
        r.append(digit_text(count / 10 % 10));
        r.append(digit_text(count % 10));
        r
    }
}

impl Lawful for Fixed {
    proof fn order_is_strict(a: Fixed, b: Fixed) {
    }

    proof fn order_chains(a: Fixed, b: Fixed, c: Fixed) {
    }

    proof fn gap_is_zero_between_equals_only(a: Fixed, b: Fixed) {
    }

    proof fn magnitude_is_non_negative(a: Fixed) {
    }

    proof fn sum_of_non_negatives(a: Fixed, b: Fixed) {
    }
}

} // verus!
