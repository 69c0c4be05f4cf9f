//! Fixed-point currency amount.
//!
//! This module holds the `Amount` type: currency stored as a scaled 64-bit
//! unsigned integer (thousandths of a unit), with exact arithmetic, decimal
//! string parsing with round-half-up semantics, and precision-aware
//! formatting.

use vstd::prelude::*;

use crate::decimal::{
    all_digits, dec_digits, digit_val, digits_val, is_digit, lemma_dec_digits_len_small,
    lemma_dec_digits_val, lemma_digits_val_bound, lemma_digits_val_concat, lemma_digits_val_push,
    lemma_pow10_pos, lemma_zeros_val, pad_left, pow10, push_dec_digits, push_pad2, push_pad3,
    zeros,
};
use crate::text::{count_char, find_char, lemma_count_char_zero, lemma_find_char_is};

verus! {

/// A currency amount.
///
/// Its internal representation is a 64-bit unsigned number, displayed as a
/// fixed-point number of factor 1/1,000: an internal representation of
/// `1_000` is an external amount of `1`. No negative amounts exist. The view
/// of an `Amount` is its representation in thousandths.
#[derive(Copy, Clone, PartialEq, Eq, Structural, Debug)]
pub struct Amount {
    value: u64,
}

impl View for Amount {
    type V = u64;

    closed spec fn view(&self) -> u64 {
        self.value
    }
}

impl Amount {
    /// Creates a new amount from its internal representation (thousandths).
    pub fn from_repr(value: u64) -> (r: Amount)
        ensures
            r@ == value,
    {
        Amount { value }
    }

    /// Gets the internal representation (thousandths) of the amount.
    pub fn get_repr(&self) -> (r: u64)
        ensures
            r == self@,
    {
        self.value
    }

    /// Returns the smallest value that can be represented as a currency amount.
    pub fn min_value() -> (r: Amount)
        ensures
            r@ == 0,
    {
        Amount { value: 0 }
    }

    /// Returns the largest value that can be represented as a currency amount.
    pub fn max_value() -> (r: Amount)
        ensures
            r@ == u64::MAX,
    {
        Amount { value: u64::MAX }
    }

    /// Adds two amounts. The caller must ensure that the sum is
    /// representable.
    pub fn add(self, rhs: Amount) -> (r: Amount)
        requires
            self@ + rhs@ <= u64::MAX,
        ensures
            r@ == self@ + rhs@,
    {
        Amount { value: self.value + rhs.value }
    }

    /// Subtracts an amount from this one. The caller must ensure that no
    /// underflow happens: subtracting a larger amount from a smaller one is
    /// a contract violation, not a recoverable error.
    pub fn sub(self, rhs: Amount) -> (r: Amount)
        requires
            rhs@ <= self@,
        ensures
            r@ == self@ - rhs@,
    {
        Amount { value: self.value - rhs.value }
    }

    /// Multiplies the amount by an unsigned integer scalar. The caller must
    /// ensure that the product is representable.
    pub fn mul(self, rhs: u64) -> (r: Amount)
        requires
            self@ * rhs <= u64::MAX,
        ensures
            r@ == self@ * rhs,
    {
        Amount { value: self.value * rhs }
    }

    /// Divides the amount by a nonzero unsigned integer scalar, truncating
    /// toward zero.
    pub fn div(self, rhs: u64) -> (r: Amount)
        requires
            rhs != 0,
        ensures
            r@ == self@ / rhs,
    {
        Amount { value: self.value / rhs }
    }

    /// The remainder of the amount modulo a nonzero unsigned integer scalar.
    /// The scalar's modulus is `rhs * 1_000` in representation units,
    /// matching the scale, so the result is the true remainder in
    /// thousandths.
    pub fn rem(self, rhs: u64) -> (r: Amount)
        requires
            0 < rhs * 1000 <= u64::MAX,
        ensures
            r@ == self@ as int % (rhs * 1000),
    {
        Amount { value: self.value % (rhs * 1000) }
    }
}

/// The reason an amount string was rejected.
#[derive(Copy, Clone, PartialEq, Eq, Structural, Debug)]
pub enum AmountParseErrorKind {
    /// More than one decimal separator.
    MultipleSeparators,
    /// The integer part is not a plain unsigned decimal number.
    InvalidUnits,
    /// The integer part exceeds the largest representable amount.
    UnitsTooLarge,
    /// A decimal separator with no digits after it.
    EmptyDecimals,
    /// The fractional part is not a plain unsigned decimal number.
    InvalidDecimals,
    /// Integer and fractional part together exceed the largest representable
    /// amount.
    SumTooLarge,
}

/// Amount parsing error.
///
/// Explains the exact error that led to the parsing failure.
#[derive(Copy, Clone, PartialEq, Eq, Structural, Debug)]
pub struct AmountParseError {
    /// The reason the input was rejected.
    pub kind: AmountParseErrorKind,
}

impl AmountParseError {
    /// Wraps a rejection reason as a parse error.
    pub fn new(kind: AmountParseErrorKind) -> (r: AmountParseError)
        ensures
            r.kind == kind,
    {
        AmountParseError { kind }
    }

    /// A human-readable description of the error.
    pub fn describe(&self) -> (r: String)
        ensures
            self.kind is MultipleSeparators ==> r@ == "an amount can only have one period to separate units and decimals"@,
            self.kind is InvalidUnits ==> r@ == "the units part is not a valid u64 amount"@,
            self.kind is UnitsTooLarge ==> r@ == "it is too big, the units exceed the maximum amount"@,
            self.kind is EmptyDecimals ==> r@ == "no decimals were found after the decimal separator"@,
            self.kind is InvalidDecimals ==> r@ == "the decimal part is not a valid u64 number"@,
            self.kind is SumTooLarge ==> r@ == "it is too big, the maximum amount is exceeded"@,
    {
        match self.kind {
            AmountParseErrorKind::MultipleSeparators => String::from_str(
                "an amount can only have one period to separate units and decimals",
            ),
            AmountParseErrorKind::InvalidUnits => String::from_str(
                "the units part is not a valid u64 amount",
            ),
            AmountParseErrorKind::UnitsTooLarge => String::from_str(
                "it is too big, the units exceed the maximum amount",
            ),
            AmountParseErrorKind::EmptyDecimals => String::from_str(
                "no decimals were found after the decimal separator",
            ),
            AmountParseErrorKind::InvalidDecimals => String::from_str(
                "the decimal part is not a valid u64 number",
            ),
            AmountParseErrorKind::SumTooLarge => String::from_str(
                "it is too big, the maximum amount is exceeded",
            ),
        }
    }
}

/// Rounds the value `dval` of a fractional digit string of length `len`
/// (already right-padded to at least three digits) to exactly three digits,
/// round-half-up: when more than three digits are given, divide by ten to
/// the excess and round up when the cut-off remainder is at least half the
/// divisor.
pub open spec fn spec_round_to_3(dval: nat, len: nat) -> nat {
    if len <= 3 {
        dval
    } else {
        let div = pow10((len - 3) as nat);
        if dval % div >= div / 2 {
            dval / div + 1
        } else {
            dval / div
        }
    }
}

/// What parsing a decimal amount string yields: the representation in
/// thousandths, or the exact rejection reason.
///
/// The string is an optional integer part, an optional single `.` separator
/// and an optional fractional part; the fractional part is right-padded with
/// zeros to three digits and rounded half-up to thousandths; the result is
/// `units * 1000 + thousandths` when it is representable.
pub open spec fn spec_parse_amount(s: Seq<char>) -> Result<u64, AmountParseErrorKind> {
    if count_char(s, '.') == 0 {
        if s.len() == 0 || !all_digits(s) {
            Err(AmountParseErrorKind::InvalidUnits)
        } else if digits_val(s) > u64::MAX {
            Err(AmountParseErrorKind::InvalidUnits)
        } else if digits_val(s) * 1000 > u64::MAX {
            Err(AmountParseErrorKind::UnitsTooLarge)
        } else {
            Ok((digits_val(s) * 1000) as u64)
        }
    } else if count_char(s, '.') != 1 {
        Err(AmountParseErrorKind::MultipleSeparators)
    } else {
        let i = find_char(s, '.');
        let us = s.subrange(0, i);
        let ds = s.subrange(i + 1, s.len() as int);
        if us.len() > 0 && !all_digits(us) {
            Err(AmountParseErrorKind::InvalidUnits)
        } else if us.len() > 0 && digits_val(us) > u64::MAX {
            Err(AmountParseErrorKind::InvalidUnits)
        } else if us.len() > 0 && digits_val(us) * 1000 > u64::MAX {
            Err(AmountParseErrorKind::UnitsTooLarge)
        } else if ds.len() == 0 {
            Err(AmountParseErrorKind::EmptyDecimals)
        } else {
            let units = digits_val(us) * 1000;
            let padded = if ds.len() >= 3 {
                ds
            } else {
                ds + zeros((3 - ds.len()) as nat)
            };
            if !all_digits(padded) {
                Err(AmountParseErrorKind::InvalidDecimals)
            } else if digits_val(padded) > u64::MAX {
                Err(AmountParseErrorKind::InvalidDecimals)
            } else {
                let d = spec_round_to_3(digits_val(padded), padded.len());
                if units + d <= u64::MAX {
                    Ok((units + d) as u64)
                } else {
                    Err(AmountParseErrorKind::SumTooLarge)
                }
            }
        }
    }
}

/// The decimal rendering of an amount of `v` thousandths at the given
/// precision, before width padding.
///
/// With no explicit precision the minimal exact form is used: the units
/// alone when the fraction is zero, else the fraction with trailing zeros
/// stripped. With precision `p <= 2` the fraction is rounded half-up to `p`
/// digits (an increment that carries past the highest digit lengthens the
/// rendered fraction rather than being dropped); with `p >= 3` the exact
/// three fractional digits are right-padded with zeros to `p` digits.
pub open spec fn spec_format_body(v: u64, precision: Option<usize>) -> Seq<char> {
    let units = v as nat / 1000;
    let frac = v as nat % 1000;
    match precision {
        None => {
            if frac == 0 {
                dec_digits(units)
            } else if frac % 100 == 0 {
                dec_digits(units) + seq!['.'] + dec_digits(frac / 100)
            } else if frac % 10 == 0 {
                dec_digits(units) + seq!['.'] + pad_left(dec_digits(frac / 10), 2)
            } else {
                dec_digits(units) + seq!['.'] + pad_left(dec_digits(frac), 3)
            }
        },
        Some(p) => {
            if p == 0 {
                dec_digits(
                    units + if frac >= 500 {
                        1nat
                    } else {
                        0
                    },
                )
            } else if p == 1 {
                dec_digits(units) + seq!['.'] + dec_digits(
                    frac / 100 + if frac % 100 >= 50 {
                        1nat
                    } else {
                        0
                    },
                )
            } else if p == 2 {
                dec_digits(units) + seq!['.'] + pad_left(
                    dec_digits(
                        frac / 10 + if frac % 10 >= 5 {
                            1nat
                        } else {
                            0
                        },
                    ),
                    2,
                )
            } else {
                dec_digits(units) + seq!['.'] + pad_left(dec_digits(frac), 3) + zeros(
                    (p - 3) as nat,
                )
            }
        },
    }
}

/// The full decimal rendering of an amount of `v` thousandths: the body at
/// the given precision, left-padded with zeros to the given minimum width
/// (never truncated).
pub open spec fn spec_format_amount(
    v: u64,
    precision: Option<usize>,
    min_width: Option<usize>,
) -> Seq<char> {
    let body = spec_format_body(v, precision);
    match min_width {
        None => body,
        Some(w) => pad_left(body, w as nat),
    }
}

/// The numeric value of an ASCII digit character, or `None` for any other
/// character.
fn digit_of(c: char) -> (r: Option<u8>)
    ensures
        r is Some <==> is_digit(c),
        r is Some ==> r->0 == digit_val(c) && r->0 < 10,
{
    let b = c as u32;
    if 48 <= b && b <= 57 {
        Some((b - 48) as u8)
    } else {
        None
    }
}

/// Scans `s[lo..hi]` as an unsigned decimal number. Returns whether every
/// character is a digit, whether the denoted value exceeds `u64::MAX`, and,
/// when neither fails, the value.
fn scan_digits(s: &str, lo: usize, hi: usize) -> (r: (bool, bool, u64))
    requires
        lo <= hi <= s@.len(),
    ensures
        r.0 == all_digits(s@.subrange(lo as int, hi as int)),
        r.0 ==> (r.1 <==> digits_val(s@.subrange(lo as int, hi as int)) > u64::MAX),
        r.0 && !r.1 ==> r.2 == digits_val(s@.subrange(lo as int, hi as int)),
{
    let ghost whole = s@.subrange(lo as int, hi as int);
    let mut i: usize = lo;
    let mut over: bool = false;
    let mut val: u64 = 0;
    while i < hi
        invariant
            lo <= i <= hi <= s@.len(),
            all_digits(s@.subrange(lo as int, i as int)),
            over <==> digits_val(s@.subrange(lo as int, i as int)) > u64::MAX,
            !over ==> val == digits_val(s@.subrange(lo as int, i as int)),
        decreases hi - i,
    {
        let ghost pre = s@.subrange(lo as int, i as int);
        let ghost post = s@.subrange(lo as int, i as int + 1);
        let c = s.get_char(i);
        proof {
            assert(post =~= pre.push(s@[i as int]));
            lemma_digits_val_push(pre, s@[i as int]);
        }
        match digit_of(c) {
            None => {
                proof {
                    let w = s@.subrange(lo as int, hi as int);
                    assert(w[i as int - lo as int] == s@[i as int]);
                    assert(!all_digits(w));
                }
                return (false, false, 0);
            },
            Some(d) => {
                proof {
                    assert forall|j: int| 0 <= j < post.len() implies is_digit(
                        #[trigger] post[j],
                    ) by {
                        if j < pre.len() {
                            assert(post[j] == pre[j]);
                        } else {
                            assert(post[j] == s@[i as int]);
                        }
                    }
                }
                if over {
                    proof {
                        assert(digits_val(post) == digits_val(pre) * 10 + digit_val(
                            s@[i as int],
                        ));
                        assert(digits_val(pre) * 10 >= digits_val(pre));
                    }
                } else {
                    if val > u64::MAX / 10 || (val == u64::MAX / 10 && d > (u64::MAX % 10) as u8) {
                        over = true;
                        proof {
                            assert(digits_val(post) > u64::MAX);
                        }
                    } else {
                        val = val * 10 + (d as u64);
                    }
                }
            },
        }
        i += 1;
    }
    proof {
        assert(whole =~= s@.subrange(lo as int, i as int));
    }
    (true, over, val)
}

impl Amount {
    /// Parses a decimal amount string: an optional integer part, an optional
    /// single `.` separator and an optional fractional part, ASCII digits
    /// only, no sign. The fractional part is right-padded with zeros to three
    /// digits and rounded half-up to thousandths. The result and every
    /// rejection reason are pinned down by [`spec_parse_amount`].
    pub fn from_str(s: &str) -> (r: Result<Amount, AmountParseError>)
        ensures
            match (r, spec_parse_amount(s@)) {
                (Ok(a), Ok(v)) => a@ == v,
                (Err(e), Err(k)) => e.kind == k,
                _ => false,
            },
    {
        let n = s.unicode_len();
        let mut i: usize = 0;
        let mut dots: usize = 0;
        let mut fd: usize = n;
        while i < n
            invariant
                0 <= i <= n,
                n == s@.len(),
                dots == count_char(s@.subrange(0, i as int), '.'),
                dots == 0 ==> fd == n,
                dots > 0 ==> fd < i && s@[fd as int] == '.' && (forall|j: int|
                    0 <= j < fd ==> s@[j] != '.'),
                dots <= i,
            decreases n - i,
        {
            let ghost pre = s@.subrange(0, i as int);
            let c = s.get_char(i);
            proof {
                assert(s@.subrange(0, i as int + 1) =~= pre.push(s@[i as int]));
                assert(pre.push(s@[i as int]).drop_last() =~= pre);
            }
            if c == '.' {
                if dots == 0 {
                    proof {
                        lemma_count_char_zero(pre, '.');
                        assert forall|j: int| 0 <= j < i implies s@[j] != '.' by {
                            assert(pre[j] == s@[j]);
                        }
                    }
                    fd = i;
                }
                dots = dots + 1;
            }
            i += 1;
        }
        proof {
            assert(s@.subrange(0, n as int) =~= s@);
        }
        if dots == 0 {
            if n == 0 {
                return Err(AmountParseError::new(AmountParseErrorKind::InvalidUnits));
            }
            let (all, over, val) = scan_digits(s, 0, n);
            if !all || over {
                return Err(AmountParseError::new(AmountParseErrorKind::InvalidUnits));
            }
            if val > u64::MAX / 1000 {
                proof {
                    assert(digits_val(s@) * 1000 > u64::MAX);
                }
                return Err(AmountParseError::new(AmountParseErrorKind::UnitsTooLarge));
            }
            proof {
                assert(digits_val(s@) * 1000 <= u64::MAX);
            }
            return Ok(Amount::from_repr(val * 1000));
        }
        if dots != 1 {
            return Err(AmountParseError::new(AmountParseErrorKind::MultipleSeparators));
        }
        proof {
            lemma_find_char_is(s@, '.', fd as int);
        }
        let ghost us = s@.subrange(0, fd as int);
        let ghost ds = s@.subrange(fd as int + 1, s@.len() as int);
        let mut units: u64 = 0;
        if fd > 0 {
            let (all, over, uval) = scan_digits(s, 0, fd);
            if !all || over {
                return Err(AmountParseError::new(AmountParseErrorKind::InvalidUnits));
            }
            if uval > u64::MAX / 1000 {
                proof {
                    assert(digits_val(us) * 1000 > u64::MAX);
                }
                return Err(AmountParseError::new(AmountParseErrorKind::UnitsTooLarge));
            }
            proof {
                assert(digits_val(us) * 1000 <= u64::MAX);
            }
            units = uval * 1000;
        } else {
            proof {
                assert(us =~= Seq::<char>::empty());
            }
        }
        let dlen = n - fd - 1;
        if dlen == 0 {
            proof {
                assert(ds.len() == 0);
            }
            return Err(AmountParseError::new(AmountParseErrorKind::EmptyDecimals));
        }
        let (all, over, dval) = scan_digits(s, fd + 1, n);
        let ghost padded = if ds.len() >= 3 {
            ds
        } else {
            ds + zeros((3 - ds.len()) as nat)
        };
        proof {
            lemma_padding(ds);
            assert(ds.len() == dlen);
        }
        if !all {
            return Err(AmountParseError::new(AmountParseErrorKind::InvalidDecimals));
        }
        if over {
            proof {
                if ds.len() < 3 {
                    lemma_digits_val_bound(ds);
                    lemma_pow10_small(ds.len());
                }
            }
            return Err(AmountParseError::new(AmountParseErrorKind::InvalidDecimals));
        }
        let d: u64;
        if dlen == 1 {
            proof {
                lemma_digits_val_bound(ds);
                lemma_pow10_small(1);
                lemma_pow10_small(2);
            }
            d = dval * 100;
        } else if dlen == 2 {
            proof {
                lemma_digits_val_bound(ds);
                lemma_pow10_small(1);
                lemma_pow10_small(2);
            }
            d = dval * 10;
        } else if dlen == 3 {
            d = dval;
        } else {
            d = round_excess(dval, dlen - 3);
        }
        proof {
            assert(d == spec_round_to_3(digits_val(padded), padded.len()));
        }
        if d <= u64::MAX - units {
            Ok(Amount::from_repr(units + d))
        } else {
            Err(AmountParseError::new(AmountParseErrorKind::SumTooLarge))
        }
    }
}

impl Amount {
    /// Renders the amount as a decimal string.
    ///
    /// With no explicit precision the minimal exact form is produced; a
    /// precision below three rounds half-up, a precision above three pads
    /// with zeros. A minimum width pads the whole string with leading zeros,
    /// never truncating. The result is pinned down by
    /// [`spec_format_amount`].
    pub fn format(&self, precision: Option<usize>, min_width: Option<usize>) -> (r: String)
        ensures
            r@ == spec_format_amount(self@, precision, min_width),
    {
        let units = self.value / 1000;
        let frac = self.value % 1000;
        let mut body = String::new();
        match precision {
            None => {
                push_dec_digits(&mut body, units);
                if frac == 0 {
                } else if frac % 100 == 0 {
                    proof {
                        reveal_strlit(".");
                    }
                    body.append(".");
                    push_dec_digits(&mut body, frac / 100);
                } else if frac % 10 == 0 {
                    proof {
                        reveal_strlit(".");
                    }
                    body.append(".");
                    push_pad2(&mut body, frac / 10);
                } else {
                    proof {
                        reveal_strlit(".");
                    }
                    body.append(".");
                    push_pad3(&mut body, frac);
                }
                proof {
                    assert(body@ =~= spec_format_body(self@, precision));
                }
            },
            Some(p) => {
                if p == 0 {
                    let u2 = if frac >= 500 {
                        units + 1
                    } else {
                        units
                    };
                    push_dec_digits(&mut body, u2);
                } else if p == 1 {
                    push_dec_digits(&mut body, units);
                    proof {
                        reveal_strlit(".");
                    }
                    body.append(".");
                    let d1 = if frac % 100 >= 50 {
                        frac / 100 + 1
                    } else {
                        frac / 100
                    };
                    push_dec_digits(&mut body, d1);
                } else if p == 2 {
                    push_dec_digits(&mut body, units);
                    proof {
                        reveal_strlit(".");
                    }
                    body.append(".");
                    let d2 = if frac % 10 >= 5 {
                        frac / 10 + 1
                    } else {
                        frac / 10
                    };
                    push_pad2(&mut body, d2);
                } else {
                    push_dec_digits(&mut body, units);
                    proof {
                        reveal_strlit(".");
                    }
                    body.append(".");
                    push_pad3(&mut body, frac);
                    let ghost base = body@;
                    let mut t: usize = 3;
                    while t < p
                        invariant
                            3 <= t <= p,
                            body@ == base + zeros((t - 3) as nat),
                        decreases p - t,
                    {
                        proof {
                            reveal_strlit("0");
                        }
                        body.append("0");
                        proof {
                            assert(body@ =~= base + zeros((t - 2) as nat));
                        }
                        t += 1;
                    }
                    proof {
                        assert(base =~= base + zeros(0));
                    }
                }
                proof {
                    assert(body@ =~= spec_format_body(self@, precision));
                }
            },
        }
        match min_width {
            None => body,
            Some(w) => {
                let blen = body.as_str().unicode_len();
                if w <= blen {
                    body
                } else {
                    let mut padded = String::new();
                    let mut t: usize = 0;
                    while t < w - blen
                        invariant
                            0 <= t <= w - blen,
                            padded@ == zeros(t as nat),
                        decreases w - blen - t,
                    {
                        proof {
                            reveal_strlit("0");
                        }
                        padded.append("0");
                        proof {
                            assert(padded@ =~= zeros((t + 1) as nat));
                        }
                        t += 1;
                    }
                    padded.append(body.as_str());
                    proof {
                        assert(padded@ =~= pad_left(body@, w as nat));
                    }
                    padded
                }
            },
        }
    }
}

/// The padded form of a nonempty fractional digit string: its length, its
/// digit-ness and its value in terms of the unpadded string.
proof fn lemma_padding(ds: Seq<char>)
    ensures
        ds.len() >= 3 ==> (if ds.len() >= 3 {
            ds
        } else {
            ds + zeros((3 - ds.len()) as nat)
        }) == ds,
        ds.len() < 3 ==> {
            let padded = ds + zeros((3 - ds.len()) as nat);
            &&& padded.len() == 3
            &&& (all_digits(padded) <==> all_digits(ds))
            &&& digits_val(padded) == digits_val(ds) * pow10((3 - ds.len()) as nat)
        },
        ds.len() <= 3 ==> digits_val(
            if ds.len() >= 3 {
                ds
            } else {
                ds + zeros((3 - ds.len()) as nat)
            },
        ) == digits_val(ds) * pow10((3 - ds.len()) as nat),
{
    if ds.len() == 3 {
        assert((3 - ds.len()) as nat == 0);
        assert(pow10((3 - ds.len()) as nat) == 1);
        vstd::arithmetic::mul::lemma_mul_basics(digits_val(ds) as int);
        assert(digits_val(ds) * pow10((3 - ds.len()) as nat) == digits_val(ds));
    }
    if ds.len() < 3 {
        let k = (3 - ds.len()) as nat;
        let padded = ds + zeros(k);
        lemma_zeros_val(k);
        lemma_digits_val_concat(ds, zeros(k));
        if all_digits(ds) {
            assert forall|i: int| 0 <= i < padded.len() implies is_digit(#[trigger] padded[i]) by {
                if i < ds.len() {
                    assert(padded[i] == ds[i]);
                } else {
                    assert(padded[i] == zeros(k)[i - ds.len()]);
                }
            }
        }
        if all_digits(padded) {
            assert forall|i: int| 0 <= i < ds.len() implies is_digit(#[trigger] ds[i]) by {
                assert(padded[i] == ds[i]);
            }
        }
    }
}

/// Parsing a string of the shape `<units> '.' <frac digits>` (one to three
/// fractional digits) yields the units scaled to thousandths plus the
/// fractional digits padded to three, whenever that sum is representable.
proof fn lemma_parse_units_dot_frac(units: nat, d: Seq<char>)
    requires
        all_digits(d),
        1 <= d.len() <= 3,
        units * 1000 + digits_val(d) * pow10((3 - d.len()) as nat) <= u64::MAX,
    ensures
        spec_parse_amount(dec_digits(units) + seq!['.'] + d) == Ok::<u64, AmountParseErrorKind>(
            ((units * 1000 + digits_val(d) * pow10((3 - d.len()) as nat)) as u64),
        ),
{
    lemma_dec_digits_val(units);
    lemma_pow10_small(0);
    let dd = dec_digits(units);
    let s = dd + seq!['.'] + d;
    let f3 = digits_val(d) * pow10((3 - d.len()) as nat);
    assert(count_char(seq!['.'], '.') == 1) by {
        assert((seq!['.']).drop_last() =~= Seq::<char>::empty());
        assert(count_char(Seq::<char>::empty(), '.') == 0);
        assert((seq!['.']).last() == '.');
    }
    lemma_count_char_zero(dd, '.');
    lemma_count_char_zero(d, '.');
    crate::text::lemma_count_char_concat(dd, seq!['.'], '.');
    crate::text::lemma_count_char_concat(dd + seq!['.'], d, '.');
    assert(s =~= (dd + seq!['.']) + d);
    assert(count_char(s, '.') == 1);
    assert forall|j: int| 0 <= j < dd.len() implies s[j] != '.' by {
        assert(s[j] == dd[j]);
    }
    assert(s[dd.len() as int] == '.');
    lemma_find_char_is(s, '.', dd.len() as int);
    let us = s.subrange(0, dd.len() as int);
    let ds = s.subrange(dd.len() as int + 1, s.len() as int);
    assert(us =~= dd);
    assert(ds =~= d);
    assert(units <= units * 1000);
    let padded = if ds.len() >= 3 {
        ds
    } else {
        ds + zeros((3 - ds.len()) as nat)
    };
    lemma_padding(d);
    if d.len() < 3 {
        assert(padded == d + zeros((3 - d.len()) as nat));
        assert(digits_val(padded) == digits_val(d) * pow10((3 - d.len()) as nat));
    } else {
        assert(padded == d);
        assert(pow10(0) == 1);
    }
    assert(digits_val(padded) == f3);
    assert(all_digits(padded));
    assert(padded.len() == 3);
    assert(f3 <= u64::MAX);
    assert(spec_round_to_3(digits_val(padded), padded.len()) == f3);
    assert(digits_val(us) * 1000 + f3 <= u64::MAX);
}

/// Round-trip law: parsing the default rendering of any amount yields the
/// amount back, exactly.
pub proof fn lemma_parse_format_round_trip(v: u64)
    ensures
        spec_parse_amount(spec_format_amount(v, None, None)) == Ok::<u64, AmountParseErrorKind>(v),
{
    let units = v as nat / 1000;
    let frac = v as nat % 1000;
    vstd::arithmetic::div_mod::lemma_fundamental_div_mod(v as int, 1000);
    assert(v == units * 1000 + frac);
    lemma_dec_digits_val(units);
    lemma_pow10_small(3);
    if frac == 0 {
        let s = dec_digits(units);
        lemma_count_char_zero(s, '.');
        assert(count_char(s, '.') == 0);
        assert(digits_val(s) * 1000 == v);
        assert(digits_val(s) <= u64::MAX);
    } else if frac % 100 == 0 {
        let d = dec_digits(frac / 100);
        lemma_dec_digits_val(frac / 100);
        lemma_dec_digits_len_small(frac / 100);
        vstd::arithmetic::div_mod::lemma_fundamental_div_mod(frac as int, 100);
        assert(digits_val(d) * pow10(2) == frac);
        lemma_parse_units_dot_frac(units, d);
    } else if frac % 10 == 0 {
        let d = pad_left(dec_digits(frac / 10), 2);
        lemma_dec_digits_val(frac / 10);
        lemma_dec_digits_len_small(frac / 10);
        crate::decimal::lemma_digits_val_pad_left(dec_digits(frac / 10), 2);
        vstd::arithmetic::div_mod::lemma_fundamental_div_mod(frac as int, 10);
        assert(d.len() == 2);
        assert(digits_val(d) * pow10(1) == frac);
        lemma_parse_units_dot_frac(units, d);
    } else {
        let d = pad_left(dec_digits(frac), 3);
        lemma_dec_digits_val(frac);
        lemma_dec_digits_len_small(frac);
        crate::decimal::lemma_digits_val_pad_left(dec_digits(frac), 3);
        assert(d.len() == 3);
        assert(digits_val(d) * pow10(0) == frac);
        lemma_parse_units_dot_frac(units, d);
    }
}

/// Overflow law: a decimal string whose integer part denotes more units
/// than the largest representable amount holds fails to parse, whatever
/// follows the integer part; when the integer part alone still fits a
/// 64-bit number and a single separator follows at most, the error names
/// the units overflow.
pub proof fn lemma_parse_units_overflow(us: Seq<char>, rest: Seq<char>)
    requires
        all_digits(us),
        us.len() > 0,
        digits_val(us) * 1000 > u64::MAX,
        rest.len() > 0 ==> rest[0] == '.',
    ensures
        spec_parse_amount(us + rest) is Err,
        digits_val(us) <= u64::MAX && (rest.len() == 0 || count_char(rest, '.') == 1)
            ==> spec_parse_amount(us + rest) == Err::<u64, AmountParseErrorKind>(
            AmountParseErrorKind::UnitsTooLarge,
        ),
{
    let s = us + rest;
    lemma_count_char_zero(us, '.');
    crate::text::lemma_count_char_concat(us, rest, '.');
    if rest.len() == 0 {
        assert(s =~= us);
        lemma_count_char_zero(s, '.');
        assert(count_char(s, '.') == 0);
    } else {
        assert(count_char(rest, '.') >= 1) by {
            lemma_count_char_zero(rest, '.');
        }
        if count_char(s, '.') == 1 {
            assert forall|j: int| 0 <= j < us.len() implies s[j] != '.' by {
                assert(s[j] == us[j]);
            }
            assert(s[us.len() as int] == rest[0]);
            lemma_find_char_is(s, '.', us.len() as int);
            assert(s.subrange(0, us.len() as int) =~= us);
        }
    }
}

/// Small powers of ten, written out.
proof fn lemma_pow10_small(k: nat)
    requires
        k <= 3,
    ensures
        pow10(0) == 1,
        pow10(1) == 10,
        pow10(2) == 100,
        pow10(3) == 1000,
{
    assert(pow10(0) == 1);
    assert(pow10(1) == 10);
    assert(pow10(2) == 100);
    assert(pow10(3) == 1000);
}

/// Divides `dval` by ten to the `k` and rounds half-up on the cut-off
/// remainder, matching [`spec_round_to_3`] for a digit string of length
/// `k + 3`.
fn round_excess(dval: u64, k: usize) -> (d: u64)
    requires
        k >= 1,
    ensures
        d == spec_round_to_3(dval as nat, (k + 3) as nat),
        d <= u64::MAX,
{
    let mut q: u64 = dval;
    let mut j: usize = 0;
    proof {
        assert(pow10(0) == 1);
        assert(dval as nat / 1 == dval as nat);
    }
    while j < k - 1
        invariant
            0 <= j <= k - 1,
            q == dval as nat / pow10(j as nat),
        decreases k - 1 - j,
    {
        proof {
            lemma_pow10_pos(j as nat);
            vstd::arithmetic::div_mod::lemma_div_denominator(
                dval as int,
                pow10(j as nat) as int,
                10,
            );
            assert(pow10((j + 1) as nat) == 10 * pow10(j as nat));
        }
        q = q / 10;
        j += 1;
    }
    let ghost p = pow10((k - 1) as nat);
    let ghost div = pow10(k as nat);
    let digit = q % 10;
    let qq = q / 10;
    proof {
        lemma_pow10_pos((k - 1) as nat);
        lemma_pow10_pos(k as nat);
        vstd::arithmetic::div_mod::lemma_div_denominator(dval as int, p as int, 10);
        assert(div == 10 * p);
        assert(qq == dval as nat / div);
        vstd::arithmetic::div_mod::lemma_mod_breakdown(dval as int, p as int, 10);
        assert(dval as int % (p as int * 10) == p as int * ((dval as int / p as int) % 10)
            + dval as int % p as int);
        assert(div / 2 == 5 * p) by {
            assert(10 * p == 2 * (5 * p));
            vstd::arithmetic::div_mod::lemma_div_multiples_vanish(5 * p as int, 2);
        }
        assert((dval as int % p as int) < p as int && 0 <= (dval as int % p as int)) by {
            vstd::arithmetic::div_mod::lemma_mod_division_less_than_divisor(dval as int, p as int);
        }
        vstd::arithmetic::mul::lemma_mul_is_commutative(p as int, digit as int);
        if digit >= 5 {
            vstd::arithmetic::mul::lemma_mul_inequality(5, digit as int, p as int);
            assert(dval as nat % div >= div / 2);
        } else {
            vstd::arithmetic::mul::lemma_mul_inequality(digit as int, 4, p as int);
            assert(dval as nat % div < div / 2);
        }
        assert(qq <= dval / 10) by {
            vstd::arithmetic::div_mod::lemma_div_is_ordered_by_denominator(
                dval as int,
                10,
                div as int,
            );
        }
        assert((k + 3) as nat - 3 == k as nat);
    }
    if digit >= 5 {
        qq + 1
    } else {
        qq
    }
}

} // verus!

