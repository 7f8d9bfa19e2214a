//! The edge to the durable stores.
//!
//! The weights survive between runs as text, so the text form of a
//! coefficient is a durable contract: this module defines that canonical
//! form — optional minus sign, the whole part without leading zeros, a dot,
//! and exactly six fraction digits — writes it, parses it, and proves that a
//! written coefficient reads back unchanged.  Moving the text in and out of a
//! file is the caller's business; the library only answers whether a store
//! exists yet.

use vstd::prelude::*;
use vstd::string::{StrSliceExecFns, StringExecFns};

use crate::fixed::{abs_of, lift, Fixed, MAX_RAW, SCALE};

verus! {

/// The decimal digit character for a value between zero and nine.
pub open spec fn digit_char(d: int) -> char {
    ((48 + d) as u8) as char
}

/// The value of a decimal digit character.
pub open spec fn digit_val(c: char) -> int {
    (c as int) - 48
}

/// Whether a character is a decimal digit.
pub open spec fn is_digit_char(c: char) -> bool {
    48 <= (c as int) <= 57
}

/// Whether every character of `s` is a decimal digit.
pub open spec fn all_digit_chars(s: Seq<char>) -> bool {
    forall|i: int| 0 <= i < s.len() ==> is_digit_char(#[trigger] s[i])
}

/// The number a digit string denotes, most significant digit first.
pub open spec fn digits_value(s: Seq<char>) -> int
    decreases s.len(),
{
    if s.len() == 0 {
        0
    } else {
        digits_value(s.drop_last()) * 10 + digit_val(s.last())
    }
}

/// Ten to the `w`.
pub open spec fn pow10(w: nat) -> int
    decreases w,
{
    if w == 0 {
        1
    } else {
        10 * pow10((w - 1) as nat)
    }
}

/// The canonical digits of `n`: no leading zero (a lone zero for zero).
pub open spec fn dec_digits(n: nat) -> Seq<char>
    decreases n,
{
    if n < 10 {
        seq![digit_char(n as int)]
    } else {
        dec_digits(n / 10).push(digit_char((n % 10) as int))
    }
}

/// The digits of `n` padded with leading zeros to exactly `w` places
/// (truncating to the low `w` places if `n` is too large).
pub open spec fn dec_padded(n: nat, w: nat) -> Seq<char>
    decreases w,
{
    if w == 0 {
        Seq::empty()
    } else {
        dec_padded(n / 10, (w - 1) as nat).push(digit_char((n % 10) as int))
    }
}

/// The canonical text of a raw coefficient value: sign, whole part, a dot,
/// six fraction digits.
pub open spec fn fixed_text(raw: int) -> Seq<char> {
    let mag = abs_of(raw) as nat;
    let body = dec_digits(mag / (SCALE as nat)) + seq!['.'] + dec_padded(
        mag % (SCALE as nat),
        6,
    );
    if raw < 0 {
        seq!['-'] + body
    } else {
        body
    }
}

/// What a text denotes under the canonical grammar: `None` on anything that
/// [`fixed_text`] cannot have produced.
pub open spec fn parse_text(s: Seq<char>) -> Option<int> {
    if s.len() > 21 {
        None
    } else {
        let neg = s.len() > 0 && s[0] == '-';
        let rest = if neg {
            s.skip(1)
        } else {
            s
        };
        if rest.len() < 8 {
            None
        } else if rest[rest.len() - 7] != '.' {
            None
        } else {
            let whole = rest.take(rest.len() - 7);
            let frac = rest.skip(rest.len() - 6);
            if !(all_digit_chars(whole) && all_digit_chars(frac)) {
                None
            } else if whole.len() > 1 && whole[0] == digit_char(0) {
                None
            } else {
                let v = digits_value(whole) * (SCALE as int) + digits_value(frac);
                let raw = if neg {
                    -v
                } else {
                    v
                };
                if -(MAX_RAW as int) <= raw <= MAX_RAW as int {
                    Some(raw)
                } else {
                    None
                }
            }
        }
    }
}

/// Digit characters denote their digit, and nothing else is a digit
/// character.
proof fn lemma_digit_char_val(d: int)
    requires
        0 <= d <= 9,
    ensures
        is_digit_char(digit_char(d)),
        digit_val(digit_char(d)) == d,
{
}

/// The canonical digits of a number: at least one character, all digits, no
/// leading zero unless the number is a lone zero, and they denote the number.
proof fn lemma_dec_digits_props(n: nat)
    ensures
        dec_digits(n).len() >= 1,
        all_digit_chars(dec_digits(n)),
        digits_value(dec_digits(n)) == n,
        dec_digits(n).len() > 1 ==> dec_digits(n)[0] != digit_char(0),
    decreases n,
{
    if n < 10 {
        lemma_digit_char_val(n as int);
        let s = dec_digits(n);
        assert(s.drop_last() =~= Seq::<char>::empty());
        assert(s.last() == digit_char(n as int));
        assert(digits_value(s.drop_last()) == 0);
        assert(digits_value(s) == digits_value(s.drop_last()) * 10 + digit_val(s.last()));
        assert(digits_value(s) == n);
    } else {
        lemma_dec_digits_props(n / 10);
        lemma_digit_char_val((n % 10) as int);
        let sub = dec_digits(n / 10);
        let s = dec_digits(n);
        assert(s.drop_last() =~= sub);
        vstd::arithmetic::div_mod::lemma_fundamental_div_mod(n as int, 10);
        if sub.len() == 1 {
            // a single canonical digit stands for a value below ten
            lemma_digits_value_bounds(sub);
            assert(pow10(1nat) == 10) by {
                reveal_with_fuel(pow10, 3);
            }
            assert(sub[0] == digit_char((n / 10) as int));
            assert(n / 10 >= 1) by {
                vstd::arithmetic::div_mod::lemma_div_is_ordered(10, n as int, 10);
                vstd::arithmetic::div_mod::lemma_div_by_self(10);
            }
            lemma_digit_char_val((n / 10) as int);
            lemma_digit_char_val(0);
            assert(digit_val(sub[0]) != digit_val(digit_char(0)));
        }
        assert(s.last() == digit_char((n % 10) as int));
        assert(digits_value(s) == digits_value(sub) * 10 + digit_val(s.last()));
        assert(digits_value(s) == n);
    }
}

/// A digit string of length `L` denotes a number below ten to the `L`.
proof fn lemma_digits_value_bounds(s: Seq<char>)
    requires
        all_digit_chars(s),
    ensures
        0 <= digits_value(s) < pow10(s.len()),
    decreases s.len(),
{
    if s.len() > 0 {
        assert(all_digit_chars(s.drop_last())) by {
            assert(forall|i: int|
                0 <= i < s.len() - 1 ==> s.drop_last()[i] == #[trigger] s[i]);
        }
        lemma_digits_value_bounds(s.drop_last());
        let prev = digits_value(s.drop_last());
        let d = digit_val(s.last());
        assert(prev * 10 + d < pow10(s.len())) by (nonlinear_arith)
            requires
                prev < pow10((s.len() - 1) as nat) && d <= 9 && pow10(s.len()) == 10 * pow10(
                    (s.len() - 1) as nat,
                ),
        ;
        assert(prev * 10 + d >= 0) by (nonlinear_arith)
            requires
                prev >= 0 && d >= 0,
        ;
    }
}

/// A number below ten to the `L` has at most `L` canonical digits.
proof fn lemma_dec_digits_len_le(n: nat, width: nat)
    requires
        width >= 1,
        n < pow10(width),
    ensures
        dec_digits(n).len() <= width,
    decreases width,
{
    if n >= 10 {
        if width == 1 {
            assert(pow10(1nat) == 10) by {
                reveal_with_fuel(pow10, 3);
            }
        } else {
            assert(pow10(width) == 10 * pow10((width - 1) as nat));
            vstd::arithmetic::div_mod::lemma_multiply_divide_lt(
                n as int,
                pow10((width - 1) as nat),
                10,
            );
            assert((n as int) / 10 == (n / 10) as int);
            lemma_dec_digits_len_le(n / 10, (width - 1) as nat);
        }
    }
}

/// Zero-padded digits: exactly `w` characters, all digits, denoting the
/// number whenever it fits in `w` places.
proof fn lemma_dec_padded_props(n: nat, w: nat)
    ensures
        dec_padded(n, w).len() == w,
        all_digit_chars(dec_padded(n, w)),
        n < pow10(w) ==> digits_value(dec_padded(n, w)) == n,
    decreases w,
{
    if w == 0 {
    } else {
        lemma_dec_padded_props(n / 10, (w - 1) as nat);
        lemma_digit_char_val((n % 10) as int);
        let sub = dec_padded(n / 10, (w - 1) as nat);
        let s = dec_padded(n, w);
        assert(s.drop_last() =~= sub);
        vstd::arithmetic::div_mod::lemma_fundamental_div_mod(n as int, 10);
        if n < pow10(w) {
            assert(pow10(w) == 10 * pow10((w - 1) as nat));
            vstd::arithmetic::div_mod::lemma_multiply_divide_lt(
                n as int,
                pow10((w - 1) as nat),
                10,
            );
            assert((n as int) / 10 == (n / 10) as int);
        }
    }
}

/// Law: a stored coefficient reads back unchanged — parsing the canonical
/// text of any representable value yields exactly that value.
#[verifier::rlimit(100)]
pub proof fn lemma_text_round_trip(raw: int)
    requires
        -(MAX_RAW as int) <= raw <= MAX_RAW as int,
    ensures
        parse_text(fixed_text(raw)) == Some(raw),
{
    let mag = abs_of(raw) as nat;
    let sn = SCALE as nat;
    let whole = mag / sn;
    let frac = mag % sn;
    lemma_dec_digits_props(whole);
    lemma_dec_padded_props(frac, 6);
    lemma_digits_value_bounds(dec_digits(whole));
    assert(pow10(6) == 1_000_000) by {
        reveal_with_fuel(pow10, 7);
    }
    assert(pow10(13) == 10_000_000_000_000) by {
        reveal_with_fuel(pow10, 14);
    }
    assert(whole < pow10(13)) by {
        vstd::arithmetic::div_mod::lemma_div_is_ordered(
            mag as int,
            MAX_RAW as int,
            SCALE as int,
        );
        vstd::arithmetic::div_mod::lemma_div_by_multiple(1_000_000_000_000, SCALE as int);
    }
    lemma_dec_digits_len_le(whole, 13);
    assert(frac < pow10(6)) by {
        vstd::arithmetic::div_mod::lemma_mod_division_less_than_divisor(mag as int, SCALE as int);
    }
    vstd::arithmetic::div_mod::lemma_fundamental_div_mod(mag as int, SCALE as int);

    let d = dec_digits(whole);
    let p = dec_padded(frac, 6);
    let body = d + seq!['.'] + p;
    let s = fixed_text(raw);
    let rest = if raw < 0 {
        s.skip(1)
    } else {
        s
    };
    assert(rest =~= body);
    assert(body[d.len() as int] == '.');
    assert(body.take(body.len() - 7) =~= d);
    assert(body.skip(body.len() - 6) =~= p);
    assert(is_digit_char(d[0]));
    if raw >= 0 {
        assert(s[0] == d[0]);
        assert(s[0] != '-');
    }
    assert(digits_value(d) * (SCALE as int) + digits_value(p) == mag as int) by (nonlinear_arith)
        requires
            digits_value(d) == whole as int && digits_value(p) == frac as int && mag as int == (
            SCALE as int) * (whole as int) + frac as int,
    ;
}

/// Ten to the `w` is positive.
proof fn lemma_pow10_pos(w: nat)
    ensures
        pow10(w) >= 1,
    decreases w,
{
    if w > 0 {
        lemma_pow10_pos((w - 1) as nat);
    }
}

/// Ten to the `w` grows with `w`.
proof fn lemma_pow10_le(a: nat, b: nat)
    requires
        a <= b,
    ensures
        pow10(a) <= pow10(b),
    decreases b,
{
    if a < b {
        lemma_pow10_le(a, (b - 1) as nat);
        lemma_pow10_pos((b - 1) as nat);
    }
}

/// Appends one decimal digit character.
fn push_digit(out: &mut String, d: u64)
    requires
        d <= 9,
    ensures
        final(out)@ == old(out)@ + seq![digit_char(d as int)],
{
    proof {
        reveal_strlit("0");
        reveal_strlit("1");
        reveal_strlit("2");
        reveal_strlit("3");
        reveal_strlit("4");
        reveal_strlit("5");
        reveal_strlit("6");
        reveal_strlit("7");
        reveal_strlit("8");
        reveal_strlit("9");
    }
    if d == 0 {
        out.append("0");
        proof {
            assert("0"@ =~= seq![digit_char(0int)]);
        }
    } else if d == 1 {
        out.append("1");
        proof {
            assert("1"@ =~= seq![digit_char(1int)]);
        }
    } else if d == 2 {
        out.append("2");
        proof {
            assert("2"@ =~= seq![digit_char(2int)]);
        }
    } else if d == 3 {
        out.append("3");
        proof {
            assert("3"@ =~= seq![digit_char(3int)]);
        }
    } else if d == 4 {
        out.append("4");
        proof {
            assert("4"@ =~= seq![digit_char(4int)]);
        }
    } else if d == 5 {
        out.append("5");
        proof {
            assert("5"@ =~= seq![digit_char(5int)]);
        }
    } else if d == 6 {
        out.append("6");
        proof {
            assert("6"@ =~= seq![digit_char(6int)]);
        }
    } else if d == 7 {
        out.append("7");
        proof {
            assert("7"@ =~= seq![digit_char(7int)]);
        }
    } else if d == 8 {
        out.append("8");
        proof {
            assert("8"@ =~= seq![digit_char(8int)]);
        }
    } else {
        out.append("9");
        proof {
            assert("9"@ =~= seq![digit_char(9int)]);
        }
    }
}

/// Appends the canonical digits of a number.
fn push_dec(out: &mut String, n: u64)
    ensures
        final(out)@ == old(out)@ + dec_digits(n as nat),
    decreases n,
{
    if n < 10 {
        push_digit(out, n);
    } else {
        push_dec(out, n / 10);
        push_digit(out, n % 10);
        proof {
            assert(final(out)@ =~= old(out)@ + dec_digits(n as nat));
        }
    }
}

/// Appends the digits of a number, zero-padded to `w` places.
fn push_padded(out: &mut String, n: u64, w: u64)
    ensures
        final(out)@ == old(out)@ + dec_padded(n as nat, w as nat),
    decreases w,
{
    if w > 0 {
        push_padded(out, n / 10, w - 1);
        push_digit(out, n % 10);
        proof {
            assert(final(out)@ =~= old(out)@ + dec_padded(n as nat, w as nat));
        }
    } else {
        proof {
            assert(final(out)@ =~= old(out)@ + dec_padded(n as nat, 0));
        }
    }
}

/// Writes a coefficient in its canonical text form.
pub fn format_fixed(f: Fixed) -> (r: String)
    requires
        f.valid(),
    ensures
        r@ == fixed_text(f.raw as int),
{
    let mut out = String::new();
    if f.raw < 0 {
        proof {
            reveal_strlit("-");
        }
        out.append("-");
        proof {
            assert("-"@ =~= seq!['-']);
        }
    }
    let mag: u64 = if f.raw < 0 {
        (-f.raw) as u64
    } else {
        f.raw as u64
    };
    push_dec(&mut out, mag / (SCALE as u64));
    proof {
        reveal_strlit(".");
    }
    out.append(".");
    push_padded(&mut out, mag % (SCALE as u64), 6);
    proof {
        assert("."@ =~= seq!['.']);
        assert(mag as nat == abs_of(f.raw as int) as nat);
        assert(out@ =~= fixed_text(f.raw as int));
    }
    out
}

/// Reads a coefficient from its canonical text form; anything else is
/// refused.
pub fn parse_fixed(s: &str) -> (r: Option<Fixed>)
    ensures
        r == lift(parse_text(s@)),
{
    let n: usize = s.unicode_len();
    if n > 21 {
        return None;
    }
    let neg: bool = n >= 1 && s.get_char(0) == '-';
    let start: usize = if neg {
        1
    } else {
        0
    };
    let ghost rest = if neg {
        s@.skip(1)
    } else {
        s@
    };
    proof {
        if !neg {
            assert(rest =~= s@.skip(0));
        }
    }
    let rest_len: usize = n - start;
    if rest_len < 8 {
        return None;
    }
    if s.get_char(start + rest_len - 7) != '.' {
        return None;
    }
    let whole_len: usize = rest_len - 7;
    let ghost whole = rest.take(whole_len as int);
    let ghost frac = rest.skip(rest_len - 6);

    // The whole part.
    let mut acc: u64 = 0;
    let mut i: usize = 0;
    while i < whole_len
        invariant
            n == s@.len(),
            start + rest_len == n,
            start <= 1,
            start == (if s@.len() > 0 && s@[0] == '-' { 1int } else { 0int }),
            rest_len <= 21,
            whole_len == rest_len - 7,
            rest == s@.skip(start as int),
            whole == rest.take(whole_len as int),
            i <= whole_len,
            all_digit_chars(whole.take(i as int)),
            acc == digits_value(whole.take(i as int)),
            acc < pow10(i as nat),
        decreases whole_len - i,
    {
        let c = s.get_char(start + i);
        let code: u32 = c as u32;
        proof {
            assert(whole[i as int] == c);
            assert(whole.take(i + 1).drop_last() =~= whole.take(i as int));
            assert(whole.take(i + 1).last() == whole[i as int]);
        }
        if code < 48 || code > 57 {
            proof {
                assert(!is_digit_char(whole[i as int]));
            }
            return None;
        }
        let d: u64 = (code - 48) as u64;
        proof {
            assert(digit_val(whole[i as int]) == d as int);
            lemma_pow10_le((i + 1) as nat, 14nat);
            assert(pow10(14nat) == 100_000_000_000_000) by {
                reveal_with_fuel(pow10, 15);
            }
            assert(acc * 10 + d < pow10((i + 1) as nat)) by (nonlinear_arith)
                requires
                    acc < pow10(i as nat) && d <= 9 && pow10((i + 1) as nat) == 10 * pow10(
                        i as nat,
                    ),
            ;
        }
        acc = acc * 10 + d;
        i = i + 1;
    }
    proof {
        assert(whole.take(whole_len as int) =~= whole);
    }
    if whole_len > 1 {
        let c0 = s.get_char(start);
        proof {
            assert(whole[0] == c0);
        }
        if (c0 as u32) == 48 {
            proof {
                assert(whole[0] == digit_char(0));
            }
            return None;
        }
        proof {
            assert(whole[0] != digit_char(0));
        }
    }

    // The six fraction digits.
    let mut facc: u64 = 0;
    let mut j: usize = 0;
    while j < 6
        invariant
            n == s@.len(),
            start + rest_len == n,
            start <= 1,
            start == (if s@.len() > 0 && s@[0] == '-' { 1int } else { 0int }),
            rest_len >= 8,
            rest_len <= 21,
            whole_len == rest_len - 7,
            rest == s@.skip(start as int),
            frac == rest.skip(rest_len - 6),
            j <= 6,
            all_digit_chars(frac.take(j as int)),
            facc == digits_value(frac.take(j as int)),
            facc < pow10(j as nat),
        decreases 6 - j,
    {
        let c = s.get_char(start + whole_len + 1 + j);
        let code: u32 = c as u32;
        proof {
            assert(frac[j as int] == c);
            assert(frac.take(j + 1).drop_last() =~= frac.take(j as int));
            assert(frac.take(j + 1).last() == frac[j as int]);
        }
        if code < 48 || code > 57 {
            proof {
                assert(!is_digit_char(frac[j as int]));
                let pneg = s@.len() > 0 && s@[0] == '-';
                assert(pneg == (start == 1));
                assert((if pneg {
                    s@.skip(1)
                } else {
                    s@
                }) =~= rest);
                assert(rest.len() == rest_len);
                assert(frac.len() == 6);
                assert(!all_digit_chars(frac));
                assert(parse_text(s@) is None);
            }
            return None;
        }
        let d: u64 = (code - 48) as u64;
        proof {
            assert(digit_val(frac[j as int]) == d as int);
            lemma_pow10_le((j + 1) as nat, 14nat);
            assert(pow10(14nat) == 100_000_000_000_000) by {
                reveal_with_fuel(pow10, 15);
            }
            assert(facc * 10 + d < pow10((j + 1) as nat)) by (nonlinear_arith)
                requires
                    facc < pow10(j as nat) && d <= 9 && pow10((j + 1) as nat) == 10 * pow10(
                        j as nat,
                    ),
            ;
        }
        facc = facc * 10 + d;
        j = j + 1;
    }
    proof {
        assert(frac.take(6) =~= frac);
        assert(pow10(14nat) == 100_000_000_000_000) by {
            reveal_with_fuel(pow10, 15);
        }
        lemma_pow10_le(whole_len as nat, 14nat);
    }
    let v: u128 = (acc as u128) * (SCALE as u128) + (facc as u128);
    if v > MAX_RAW as u128 {
        return None;
    }
    let raw: i64 = if neg {
        -(v as i64)
    } else {
        v as i64
    };
    Some(Fixed { raw })
}

/// Whether the file behind a store already exists.
///
/// Relies on `std::path::Path::exists` (with `Path::new` converting the
/// argument); the answer depends on the state of the disk, so nothing is
/// promised of it.
#[verifier::external_body]
pub fn csv_exists(file_path: &str) -> bool {
    std::path::Path::new(file_path).exists()
}

} // verus!
