//! Decimal digit sequences.
//!
//! Spec-level model of decimal digit strings — the value of a digit
//! sequence, the canonical digit sequence of a number, zero padding — with
//! the lemmas that connect them, and the executable routines that append
//! decimal renderings to a `String`.

use vstd::prelude::*;

verus! {

/// Is `c` an ASCII decimal digit?
pub open spec fn is_digit(c: char) -> bool {
    48 <= c as int <= 57
}

/// The numeric value of a digit character.
pub open spec fn digit_val(c: char) -> nat {
    (c as int - 48) as nat
}

/// The digit character of a value below ten.
pub open spec fn digit_char(d: nat) -> char {
    if d == 0 {
        '0'
    } else if d == 1 {
        '1'
    } else if d == 2 {
        '2'
    } else if d == 3 {
        '3'
    } else if d == 4 {
        '4'
    } else if d == 5 {
        '5'
    } else if d == 6 {
        '6'
    } else if d == 7 {
        '7'
    } else if d == 8 {
        '8'
    } else {
        '9'
    }
}

/// Every character of `s` is an ASCII decimal digit.
pub open spec fn all_digits(s: Seq<char>) -> bool {
    forall|i: int| 0 <= i < s.len() ==> is_digit(#[trigger] s[i])
}

/// The number denoted by a digit sequence, most significant digit first.
/// Characters that are not digits contribute their offset from `'0'`, but
/// every use below guards with `all_digits`.
pub open spec fn digits_val(s: Seq<char>) -> nat
    decreases s.len(),
{
    if s.len() == 0 {
        0
    } else {
        digits_val(s.drop_last()) * 10 + digit_val(s.last())
    }
}

/// The canonical decimal digit sequence of `n`: no leading zeros, except
/// that zero itself is written `"0"`.
pub open spec fn dec_digits(n: nat) -> Seq<char>
    decreases n,
{
    if n < 10 {
        seq![digit_char(n)]
    } else {
        dec_digits(n / 10).push(digit_char(n % 10))
    }
}

/// `k` zero characters.
pub open spec fn zeros(k: nat) -> Seq<char> {
    Seq::new(k, |i: int| '0')
}

/// `s` left-padded with zero characters to length `w` (unchanged when
/// already that long).
pub open spec fn pad_left(s: Seq<char>, w: nat) -> Seq<char> {
    if s.len() >= w {
        s
    } else {
        zeros((w - s.len()) as nat) + s
    }
}

/// Ten to the `k`.
pub open spec fn pow10(k: nat) -> nat
    decreases k,
{
    if k == 0 {
        1
    } else {
        10 * pow10((k - 1) as nat)
    }
}

/// A zero sequence is made of digits and denotes zero.
pub proof fn lemma_zeros_val(k: nat)
    ensures
        zeros(k).len() == k,
        all_digits(zeros(k)),
        digits_val(zeros(k)) == 0,
    decreases k,
{
    assert(digit_val('0') == 0);
    if k > 0 {
        lemma_zeros_val((k - 1) as nat);
        assert(zeros(k).drop_last() =~= zeros((k - 1) as nat));
        assert(zeros(k).last() == '0');
    }
}

/// Powers of ten are at least one, and at least ten from the first power on.
pub proof fn lemma_pow10_pos(k: nat)
    ensures
        pow10(k) >= 1,
        k >= 1 ==> pow10(k) >= 10,
    decreases k,
{
    if k > 0 {
        lemma_pow10_pos((k - 1) as nat);
    }
}

/// The digit character of `d` is a digit and denotes `d`.
pub proof fn lemma_digit_char_val(d: nat)
    requires
        d < 10,
    ensures
        is_digit(digit_char(d)),
        digit_val(digit_char(d)) == d,
{
}

/// Appending a character multiplies the value by ten and adds the digit.
pub proof fn lemma_digits_val_push(s: Seq<char>, c: char)
    ensures
        digits_val(s.push(c)) == digits_val(s) * 10 + digit_val(c),
{
    assert(s.push(c).drop_last() =~= s);
    assert(s.push(c).last() == c);
}

/// The canonical digit sequence of `n` is nonempty, made of digits, and
/// denotes `n`.
pub proof fn lemma_dec_digits_val(n: nat)
    ensures
        dec_digits(n).len() >= 1,
        all_digits(dec_digits(n)),
        digits_val(dec_digits(n)) == n,
    decreases n,
{
    if n < 10 {
        lemma_digit_char_val(n);
        assert(dec_digits(n) =~= seq![digit_char(n)]);
        assert(dec_digits(n).drop_last() =~= Seq::<char>::empty());
        assert(digits_val(Seq::<char>::empty()) == 0);
        assert(dec_digits(n).last() == digit_char(n));
    } else {
        lemma_dec_digits_val(n / 10);
        lemma_digit_char_val(n % 10);
        lemma_digits_val_push(dec_digits(n / 10), digit_char(n % 10));
        assert(n == (n / 10) * 10 + n % 10) by {
            vstd::arithmetic::div_mod::lemma_fundamental_div_mod(n as int, 10);
        }
        assert forall|i: int| 0 <= i < dec_digits(n).len() implies is_digit(
            #[trigger] dec_digits(n)[i],
        ) by {
            if i < dec_digits(n / 10).len() {
                assert(dec_digits(n)[i] == dec_digits(n / 10)[i]);
            }
        }
    }
}

/// The length of the canonical digit sequence of a number below a thousand.
pub proof fn lemma_dec_digits_len_small(n: nat)
    requires
        n < 1000,
    ensures
        n < 10 ==> dec_digits(n).len() == 1,
        10 <= n < 100 ==> dec_digits(n).len() == 2,
        100 <= n ==> dec_digits(n).len() == 3,
{
    if n >= 10 {
        assert(dec_digits(n) == dec_digits(n / 10).push(digit_char(n % 10)));
        if n < 100 {
            assert(dec_digits(n / 10).len() == 1);
        } else {
            assert(10 <= n / 10 < 100);
            assert(dec_digits(n / 10) == dec_digits(n / 10 / 10).push(digit_char(n / 10 % 10)));
            assert(dec_digits(n / 10 / 10).len() == 1);
        }
    }
}

/// A leading zero does not change the value of a digit sequence.
pub proof fn lemma_digits_val_leading_zero(s: Seq<char>)
    ensures
        digits_val(seq!['0'] + s) == digits_val(s),
    decreases s.len(),
{
    if s.len() == 0 {
        assert(seq!['0'] + s =~= seq!['0']);
        assert((seq!['0']).drop_last() =~= Seq::<char>::empty());
        assert(digits_val(Seq::<char>::empty()) == 0);
        assert((seq!['0']).last() == '0');
        assert(digit_val('0') == 0);
    } else {
        assert((seq!['0'] + s).drop_last() =~= seq!['0'] + s.drop_last());
        assert((seq!['0'] + s).last() == s.last());
        lemma_digits_val_leading_zero(s.drop_last());
        assert(digits_val(s) == digits_val(s.drop_last()) * 10 + digit_val(s.last()));
    }
}

/// Left padding with zeros does not change the value of a digit sequence,
/// and pads to exactly the requested width when the sequence is shorter.
pub proof fn lemma_digits_val_pad_left(s: Seq<char>, w: nat)
    ensures
        digits_val(pad_left(s, w)) == digits_val(s),
        pad_left(s, w).len() == if s.len() >= w {
            s.len()
        } else {
            w
        },
        all_digits(s) ==> all_digits(pad_left(s, w)),
    decreases w,
{
    if s.len() < w {
        let t = pad_left(s, (w - 1) as nat);
        assert(zeros((w - s.len()) as nat) =~= seq!['0'] + zeros((w - 1 - s.len()) as nat));
        assert(pad_left(s, w) =~= seq!['0'] + t);
        lemma_digits_val_pad_left(s, (w - 1) as nat);
        lemma_digits_val_leading_zero(t);
        if all_digits(s) {
            assert forall|i: int| 0 <= i < pad_left(s, w).len() implies is_digit(
                #[trigger] pad_left(s, w)[i],
            ) by {
                if i >= 1 {
                    assert(pad_left(s, w)[i] == t[i - 1]);
                }
            }
        }
    }
}

/// The value of a concatenation of digit sequences.
pub proof fn lemma_digits_val_concat(s1: Seq<char>, s2: Seq<char>)
    ensures
        digits_val(s1 + s2) == digits_val(s1) * pow10(s2.len()) + digits_val(s2),
    decreases s2.len(),
{
    if s2.len() == 0 {
        assert(s1 + s2 =~= s1);
        assert(digits_val(s2) == 0);
        assert(pow10(s2.len()) == 1);
    } else {
        assert((s1 + s2).drop_last() =~= s1 + s2.drop_last());
        assert((s1 + s2).last() == s2.last());
        assert((s1 + s2).len() == s1.len() + s2.len());
        assert(digits_val(s1 + s2) == digits_val(s1 + s2.drop_last()) * 10 + digit_val(
            s2.last(),
        ));
        lemma_digits_val_concat(s1, s2.drop_last());
        let p = pow10(s2.drop_last().len());
        assert(digits_val(s2) == digits_val(s2.drop_last()) * 10 + digit_val(s2.last()));
        assert(s2.drop_last().len() == s2.len() - 1);
        assert(pow10(s2.len()) == 10 * pow10((s2.len() - 1) as nat));
        assert(digits_val(s1 + s2) == (digits_val(s1) * p + digits_val(s2.drop_last())) * 10
            + digit_val(s2.last()));
        assert((digits_val(s1) * p) * 10 == digits_val(s1) * (p * 10)) by {
            vstd::arithmetic::mul::lemma_mul_is_associative(
                digits_val(s1) as int,
                p as int,
                10,
            );
        }
        assert(pow10(s2.len()) == p * 10);
        assert((digits_val(s1) * p + digits_val(s2.drop_last())) * 10 == (digits_val(s1) * p) * 10
            + digits_val(s2.drop_last()) * 10) by {
            vstd::arithmetic::mul::lemma_mul_is_distributive_add_other_way(
                10,
                (digits_val(s1) * p) as int,
                digits_val(s2.drop_last()) as int,
            );
        }
    }
}

/// The value of a digit sequence is below ten to its length.
pub proof fn lemma_digits_val_bound(s: Seq<char>)
    requires
        all_digits(s),
    ensures
        digits_val(s) < pow10(s.len()),
    decreases s.len(),
{
    if s.len() > 0 {
        assert(all_digits(s.drop_last())) by {
            assert forall|i: int| 0 <= i < s.drop_last().len() implies is_digit(
                #[trigger] s.drop_last()[i],
            ) by {
                assert(s.drop_last()[i] == s[i]);
            }
        }
        lemma_digits_val_bound(s.drop_last());
        let p = pow10(s.drop_last().len());
        assert(is_digit(s.last()));
        assert(digits_val(s.drop_last()) * 10 <= (p - 1) * 10) by {
            vstd::arithmetic::mul::lemma_mul_inequality(
                digits_val(s.drop_last()) as int,
                p - 1,
                10,
            );
        }
    }
}

/// Appends the digit character of `d` to `out`.
pub fn push_digit(out: &mut String, d: u8)
    requires
        d < 10,
    ensures
        final(out)@ == old(out)@.push(digit_char(d as nat)),
{
    match d {
        0 => {
            proof {
                reveal_strlit("0");
            }
            out.append("0");
        },
        1 => {
            proof {
                reveal_strlit("1");
            }
            out.append("1");
        },
        2 => {
            proof {
                reveal_strlit("2");
            }
            out.append("2");
        },
        3 => {
            proof {
                reveal_strlit("3");
            }
            out.append("3");
        },
        4 => {
            proof {
                reveal_strlit("4");
            }
            out.append("4");
        },
        5 => {
            proof {
                reveal_strlit("5");
            }
            out.append("5");
        },
        6 => {
            proof {
                reveal_strlit("6");
            }
            out.append("6");
        },
        7 => {
            proof {
                reveal_strlit("7");
            }
            out.append("7");
        },
        8 => {
            proof {
                reveal_strlit("8");
            }
            out.append("8");
        },
        _ => {
            proof {
                reveal_strlit("9");
            }
            out.append("9");
        },
    }
    proof {
        assert(out@ =~= old(out)@.push(digit_char(d as nat)));
    }
}

/// Appends the decimal rendering of `m`, left-padded with a zero to two
/// digits (longer renderings are appended unchanged).
pub fn push_pad2(out: &mut String, m: u64)
    ensures
        final(out)@ == old(out)@ + pad_left(dec_digits(m as nat), 2),
{
    if m < 10 {
        proof {
            reveal_strlit("0");
        }
        out.append("0");
        push_digit(out, m as u8);
        proof {
            assert(zeros(1) =~= seq!['0']);
            assert(out@ =~= old(out)@ + (zeros(1) + seq![digit_char(m as nat)]));
            assert(pad_left(dec_digits(m as nat), 2) =~= zeros(1) + seq![digit_char(m as nat)]);
        }
    } else {
        push_dec_digits(out, m);
        proof {
            lemma_dec_digits_val((m as nat) / 10);
            assert(dec_digits(m as nat) == dec_digits((m as nat) / 10).push(
                digit_char((m as nat) % 10),
            ));
            assert(dec_digits(m as nat).len() >= 2);
        }
    }
}

/// Appends the decimal rendering of `m`, left-padded with zeros to three
/// digits.
pub fn push_pad3(out: &mut String, m: u64)
    requires
        m < 1000,
    ensures
        final(out)@ == old(out)@ + pad_left(dec_digits(m as nat), 3),
{
    proof {
        lemma_dec_digits_len_small(m as nat);
    }
    if m < 10 {
        proof {
            reveal_strlit("0");
        }
        out.append("0");
        out.append("0");
        push_digit(out, m as u8);
        proof {
            assert(zeros(2) =~= seq!['0', '0']);
            assert(out@ =~= old(out)@ + (zeros(2) + dec_digits(m as nat)));
        }
    } else if m < 100 {
        proof {
            reveal_strlit("0");
        }
        out.append("0");
        push_dec_digits(out, m);
        proof {
            assert(zeros(1) =~= seq!['0']);
            assert(out@ =~= old(out)@ + (zeros(1) + dec_digits(m as nat)));
        }
    } else {
        push_dec_digits(out, m);
    }
}

/// Appends the canonical decimal rendering of `n` to `out`.
pub fn push_dec_digits(out: &mut String, n: u64)
    ensures
        final(out)@ == old(out)@ + dec_digits(n as nat),
    decreases n,
{
    if n < 10 {
        push_digit(out, n as u8);
        proof {
            assert(out@ =~= old(out)@ + dec_digits(n as nat));
        }
    } else {
        push_dec_digits(out, n / 10);
        push_digit(out, (n % 10) as u8);
        proof {
            assert(out@ =~= old(out)@ + dec_digits(n as nat));
        }
    }
}

} // verus!
