//! Sizes as yt-dlp prints them (`12.5MiB`, `3.1KiB/s`), read as a number of
//! bytes: the decimal number times the unit's power of 1024, rounded to the
//! nearest byte (halves up).
use vstd::prelude::*;
use vstd::arithmetic::div_mod::{
    lemma_div_denominator, lemma_div_multiples_vanish_quotient, lemma_hoist_over_denominator,
};
use crate::text::{all_digits, dec_value, digit_value, find, has_char, is_digit};
use crate::ytdlp::{number_end, split_size_spec, split_size_token};

verus! {

pub open spec fn pow10(n: nat) -> nat
    decreases n,
{
    if n == 0 {
        1
    } else {
        10 * pow10((n - 1) as nat)
    }
}

/// The number of bytes of unit `k` (a power of 1024).
pub open spec fn unit_multiplier(k: u32) -> nat {
    if k == 0 {
        1
    } else if k == 1 {
        1024
    } else if k == 2 {
        1048576
    } else if k == 3 {
        1073741824
    } else {
        1099511627776
    }
}

/// The integer and fraction digits of a number text made of digits and
/// dots, when `f64::from_str` accepts it: at most one dot and at least one
/// digit.
pub open spec fn decimal_parts(num: Seq<char>) -> Option<(Seq<char>, Seq<char>)> {
    match find(num, seq!['.']) {
        Some(p) => {
            let int_part = num.take(p);
            let frac = num.skip(p + 1);
            if has_char(frac, '.') || int_part.len() + frac.len() == 0 {
                None
            } else {
                Some((int_part, frac))
            }
        },
        None => if num.len() == 0 {
            None
        } else {
            Some((num, Seq::empty()))
        },
    }
}

/// `int_part.frac` times `mult`, rounded to the nearest integer with halves
/// rounded up, and capped at `u64::MAX`.
pub open spec fn rounded_bytes(int_part: Seq<char>, frac: Seq<char>, mult: nat) -> u64 {
    let d = frac.len();
    let n = dec_value(int_part) * pow10(d) + dec_value(frac);
    let q = round_div(n * mult, pow10(d));
    if q > u64::MAX {
        u64::MAX
    } else {
        q as u64
    }
}

/// `a / b` rounded to the nearest integer, halves up.
pub open spec fn round_div(a: nat, b: nat) -> nat {
    (2 * a + b) / (2 * b)
}

/// The number of bytes that a size text stands for; `None` for a blank or
/// `unknown` size, an unknown unit, or a number that is not one.
pub open spec fn size_bytes_spec(value: Seq<char>) -> Option<u64> {
    match split_size_spec(value) {
        Some((num, k)) => match decimal_parts(num) {
            Some((i, f)) => Some(rounded_bytes(i, f, unit_multiplier(k))),
            None => None,
        },
        None => None,
    }
}

// ---------------------------------------------------------------------------
// Arithmetic facts
// ---------------------------------------------------------------------------

proof fn lemma_pow10_pos(n: nat)
    ensures
        pow10(n) > 0,
    decreases n,
{
    if n > 0 {
        lemma_pow10_pos((n - 1) as nat);
    }
}

/// The leading digit's share of a digit string's value.
proof fn lemma_dec_value_first(s: Seq<char>)
    requires
        s.len() >= 1,
    ensures
        dec_value(s) == digit_value(s[0]) * pow10((s.len() - 1) as nat) + dec_value(s.skip(1)),
    decreases s.len(),
{
    if s.len() == 1 {
        assert(s.drop_last() =~= Seq::<char>::empty());
        assert(s.skip(1) =~= Seq::<char>::empty());
        assert(dec_value(Seq::<char>::empty()) == 0);
        assert(dec_value(s.drop_last()) == 0);
        assert(dec_value(s) == digit_value(s.last()));
        assert(pow10(0) == 1);
        assert(digit_value(s[0]) * 1 == digit_value(s[0]));
    } else {
        let dl = s.drop_last();
        lemma_dec_value_first(dl);
        assert(dl[0] == s[0]);
        let t = s.skip(1);
        assert(dl.skip(1) =~= t.drop_last());
        assert(t.last() == s.last());
        let a = digit_value(s[0]);
        let p = pow10((s.len() - 2) as nat);
        let r = dec_value(dl.skip(1));
        assert(dec_value(dl) == a * p + r);
        assert(dec_value(t) == r * 10 + digit_value(s.last()));
        assert(dec_value(s) == dec_value(dl) * 10 + digit_value(s.last()));
        assert(pow10((s.len() - 1) as nat) == 10 * p);
        assert((a * p + r) * 10 == a * (10 * p) + r * 10) by (nonlinear_arith);
    }
}

/// `(a * p + x) / (p * 10) == (a + x / p) / 10`
proof fn lemma_nested_div(a: int, x: int, p: int)
    requires
        0 <= a,
        0 <= x,
        0 < p,
    ensures
        (a * p + x) / (p * 10) == (a + x / p) / 10,
{
    lemma_hoist_over_denominator(x, a, p as nat);
    assert(a * p >= 0) by (nonlinear_arith)
        requires
            0 <= a,
            0 < p,
    ;
    lemma_div_denominator(a * p + x, p, 10);
}

// ---------------------------------------------------------------------------
// Computation
// ---------------------------------------------------------------------------

/// The value of a digit string, or `None` when it exceeds `u64::MAX`.
fn digits_value(s: &Vec<char>) -> (r: Option<u64>)
    requires
        all_digits(s@),
    ensures
        match r {
            Some(v) => v == dec_value(s@),
            None => dec_value(s@) > u64::MAX,
        },
{
    let mut acc: u64 = 0;
    let mut over = false;
    let mut j: usize = 0;
    while j < s.len()
        invariant
            j <= s.len(),
            all_digits(s@),
            !over ==> acc == dec_value(s@.take(j as int)),
            over ==> dec_value(s@.take(j as int)) > u64::MAX,
        decreases s.len() - j,
    {
        proof {
            assert(s@.take(j + 1).drop_last() =~= s@.take(j as int));
            assert(is_digit(s@[j as int]));
        }
        let d = ((s[j] as u32) - ('0' as u32)) as u64;
        if !over {
            if acc > (u64::MAX - d) / 10 {
                over = true;
            } else {
                acc = acc * 10 + d;
            }
        }
        j += 1;
    }
    proof {
        assert(s@.take(s.len() as int) =~= s@);
    }
    if over {
        None
    } else {
        Some(acc)
    }
}

/// `round(F * m / 10^d)` for the fraction digits `F` (halves up), by the
/// schoolbook product from the last digit to the first.
fn fraction_part(f: &Vec<char>, m: u64) -> (c: u64)
    requires
        all_digits(f@),
        1 <= m <= 1099511627776,
    ensures
        c == round_div(dec_value(f@) * (m as nat), pow10(f.len() as nat)),
        c <= m,
{
    let d = f.len();
    if d == 0 {
        proof {
            assert(dec_value(f@) == 0);
            assert(pow10(0) == 1);
        }
        return 0;
    }
    let mut carry: u64 = 0;
    let mut j: usize = d;
    proof {
        assert(f@.skip(d as int) =~= Seq::<char>::empty());
        assert(dec_value(Seq::<char>::empty()) == 0);
        assert(pow10(0) == 1);
        assert((0 * (m as nat)) / 1 == 0);
    }
    while j > 1
        invariant
            1 <= j <= d == f.len(),
            all_digits(f@),
            1 <= m <= 1099511627776,
            carry == (dec_value(f@.skip(j as int)) * (m as nat)) / pow10((d - j) as nat),
            carry < m,
        decreases j,
    {
        let ghost g = dec_value(f@.skip(j as int));
        let ghost p = pow10((d - j) as nat);
        let ghost s = f@.skip(j - 1);
        proof {
            lemma_dec_value_first(s);
            assert(s.skip(1) =~= f@.skip(j as int));
            assert(s[0] == f@[j - 1]);
            assert(is_digit(f@[j - 1]));
            lemma_pow10_pos((d - j) as nat);
        }
        let dv = ((f[j - 1] as u32) - ('0' as u32)) as u64;
        assert(dv <= 9);
        assert(dv * m <= 9 * 1099511627776) by (nonlinear_arith)
            requires
                dv <= 9,
                m <= 1099511627776,
        ;
        let val = dv * m + carry;
        assert(val / 10 < m) by (nonlinear_arith)
            requires
                val == dv * m + carry,
                dv <= 9,
                carry < m,
        ;
        proof {
            let a = dv * m;
            assert(dec_value(s) * m == a * p + g * m) by (nonlinear_arith)
                requires
                    dec_value(s) == dv * p + g,
                    a == dv * m,
            ;
            assert(g * m >= 0) by (nonlinear_arith)
                requires
                    g >= 0,
                    m >= 0,
            ;
            lemma_nested_div(a as int, (g * m) as int, p as int);
            assert(pow10((d - (j - 1)) as nat) == 10 * p);
            assert(p * 10 == 10 * p);
        }
        carry = val / 10;
        j -= 1;
    }
    proof {
        let s = f@;
        lemma_dec_value_first(s);
        assert(s.skip(1) =~= f@.skip(1));
        assert(is_digit(f@[0]));
        let p = pow10((d - 1) as nat);
        lemma_pow10_pos((d - 1) as nat);
        assert(pow10(d as nat) == 10 * p);
    }
    let dv = ((f[0] as u32) - ('0' as u32)) as u64;
    assert(dv <= 9);
    assert(dv * m <= 9 * 1099511627776) by (nonlinear_arith)
        requires
            dv <= 9,
            m <= 1099511627776,
    ;
    let c = (dv * m + carry + 5) / 10;
    assert(c <= m) by (nonlinear_arith)
        requires
            c == (dv * m + carry + 5) / 10,
            dv <= 9,
            carry < m,
            m >= 1,
    ;
    proof {
        let p = pow10((d - 1) as nat);
        let g = dec_value(f@.skip(1));
        let n = dec_value(f@);
        let a = dv * m + 5;
        assert(n * m + 5 * p == a * p + g * m) by (nonlinear_arith)
            requires
                n == dv * p + g,
                a == dv * m + 5,
        ;
        assert(g * m >= 0) by (nonlinear_arith)
            requires
                g >= 0,
                m >= 0,
        ;
        assert(n * m >= 0) by (nonlinear_arith)
            requires
                n >= 0,
                m >= 0,
        ;
        lemma_nested_div(a as int, (g * m) as int, p as int);
        lemma_div_multiples_vanish_quotient(2, (n * m + 5 * p) as int, (10 * p) as int);
        assert(2 * (n * m + 5 * p) == 2 * (n * m) + pow10(d as nat)) by (nonlinear_arith)
            requires
                pow10(d as nat) == 10 * p,
        ;
        assert(2 * (10 * p) == 2 * pow10(d as nat));
        assert(p * 10 == 10 * p);
    }
    c
}

/// Reads the number of bytes of a yt-dlp size such as `"12.5MiB"`,
/// `"3.1KiB/s"` or `"1024"`; `None` for a blank or `unknown` size, an unknown
/// unit, or a malformed number.
pub fn parse_size_to_bytes(value: &str) -> (r: Option<u64>)
    ensures
        r == size_bytes_spec(value@),
{
    let tok = match split_size_token(value) {
        Some(t) => t,
        None => {
            return None;
        },
    };
    let ghost t = crate::text::trim(value@);
    let num = crate::text::chars_of(tok.number.as_str());
    proof {
        crate::ytdlp::lemma_number_prefix(t);
    }
    let dot = vec!['.'];
    proof {
        assert(dot@ =~= seq!['.']);
    }
    let (int_part, frac) = match crate::text::find_exec(&num, &dot) {
        Some(p) => {
            proof {
                crate::text::lemma_find_from(num@, seq!['.'], 0);
            }
            let n = num.len();
            let int_part = crate::text::slice_of(&num, 0, p);
            let frac = crate::text::slice_of(&num, p + 1, n);
            if crate::text::has_char_exec(&frac, '.') || int_part.len() + frac.len() == 0 {
                return None;
            }
            (int_part, frac)
        },
        None => {
            if num.len() == 0 {
                return None;
            }
            (num.clone(), Vec::new())
        },
    };
    proof {
        crate::text::lemma_find_from(num@, seq!['.'], 0);
        assert(num@ == t.take(number_end(t, 0)));
        assert forall|i: int| 0 <= i < int_part@.len() implies is_digit(#[trigger] int_part@[i]) by {
            assert(int_part@[i] == num@[i]);
            assert(num@[i] == t[i]);
            assert(num@.subrange(i, i + 1) =~= seq![num@[i]]);
            assert(!crate::text::occurs_at(num@, seq!['.'], i));
        }
        assert forall|i: int| 0 <= i < frac@.len() implies is_digit(#[trigger] frac@[i]) by {
            let p = find(num@, seq!['.'])->0;
            assert(frac@[i] == num@[p + 1 + i]);
            assert(num@[p + 1 + i] == t[p + 1 + i]);
            if frac@[i] == '.' {
                assert(has_char(frac@, '.'));
            }
        }
        assert(decimal_parts(num@) == Some((int_part@, frac@)));
    }
    let m: u64 = if tok.power == 0 {
        1
    } else if tok.power == 1 {
        1024
    } else if tok.power == 2 {
        1048576
    } else if tok.power == 3 {
        1073741824
    } else {
        1099511627776
    };
    let c = fraction_part(&frac, m);
    let ghost d = frac@.len();
    let ghost big_f = dec_value(frac@);
    let ghost pd = pow10(d);
    let ghost q = round_div((dec_value(int_part@) * pd + big_f) * (m as nat), pd);
    proof {
        lemma_pow10_pos(d);
        let i_val = dec_value(int_part@);
        let mm = m as nat;
        assert(2 * ((i_val * pd + big_f) * mm) + pd == (2 * (big_f * mm) + pd) + (i_val * mm) * (2
            * pd)) by (nonlinear_arith);
        lemma_hoist_over_denominator((2 * (big_f * mm) + pd) as int, (i_val * mm) as int, (2 * pd) as nat);
        assert(q == c + i_val * m);
    }
    match digits_value(&int_part) {
        Some(iv) => {
            let room = u64::MAX - c;
            let lim = room / m;
            if iv > lim {
                proof {
                    let (ii, mm, cc, ll, rr) = (iv as int, m as int, c as int, lim as int, room as int);
                    assert(ii * mm + cc > u64::MAX) by (nonlinear_arith)
                        requires
                            ii > ll,
                            ll == rr / mm,
                            rr == u64::MAX - cc,
                            mm >= 1,
                    ;
                }
                Some(u64::MAX)
            } else {
                proof {
                    let (ii, mm, cc, ll, rr) = (iv as int, m as int, c as int, lim as int, room as int);
                    assert(ii * mm + cc <= u64::MAX) by (nonlinear_arith)
                        requires
                            0 <= ii <= ll,
                            ll == rr / mm,
                            rr == u64::MAX - cc,
                            mm >= 1,
                    ;
                }
                Some(iv * m + c)
            }
        },
        None => {
            proof {
                let i_val = dec_value(int_part@);
                assert(i_val * m + c >= i_val) by (nonlinear_arith)
                    requires
                        m >= 1,
                        c >= 0,
                        i_val >= 0,
                ;
            }
            Some(u64::MAX)
        },
    }
}

} // verus!
