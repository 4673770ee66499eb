//! Decimal-string codecs for the scalar payloads: a verified parser and
//! canonical formatter for 64-bit signed integers, and the accepted
//! grammar of float literals.
//!
//! The wire format carries both integers and floats as decimal strings so
//! that values survive readers whose native numbers lose precision.

use vstd::prelude::*;
use vstd::string::*;

verus! {

pub open spec fn is_dig(c: char) -> bool {
    48 <= c as int <= 57
}

pub open spec fn dig_val(c: char) -> int {
    c as int - 48
}

pub open spec fn all_digs(s: Seq<char>) -> bool {
    forall|i: int| 0 <= i < s.len() ==> is_dig(#[trigger] s[i])
}

/// The number a sequence of decimal digits denotes.
pub open spec fn dec_val(s: Seq<char>) -> int
    decreases s.len(),
{
    if s.len() == 0 {
        0
    } else {
        dec_val(s.drop_last()) * 10 + dig_val(s.last())
    }
}

pub proof fn lemma_dec_val_prefix(s: Seq<char>, i: int)
    requires
        all_digs(s),
        0 <= i <= s.len(),
    ensures
        0 <= dec_val(s.subrange(0, i)) <= dec_val(s),
    decreases s.len() - i,
{
    if i == s.len() {
        assert(s.subrange(0, i) =~= s);
        lemma_dec_val_nonneg(s);
    } else {
        let t = s.subrange(0, i + 1);
        assert(t.drop_last() =~= s.subrange(0, i));
        lemma_dec_val_nonneg(s.subrange(0, i));
        assert(dec_val(s.subrange(0, i)) <= dec_val(t));
        lemma_dec_val_prefix(s, i + 1);
    }
}

pub proof fn lemma_dec_val_nonneg(s: Seq<char>)
    requires
        all_digs(s),
    ensures
        dec_val(s) >= 0,
    decreases s.len(),
{
    if s.len() > 0 {
        assert(all_digs(s.drop_last()));
        lemma_dec_val_nonneg(s.drop_last());
    }
}

/// What an integer literal denotes: an optional sign followed by at least
/// one decimal digit, as `str::parse` for the signed integer types has it.
pub open spec fn int_lit_val(s: Seq<char>) -> Option<int> {
    if s.len() >= 1 && (s[0] == '-' || s[0] == '+') {
        let t = s.subrange(1, s.len() as int);
        if t.len() > 0 && all_digs(t) {
            if s[0] == '-' {
                Some(-dec_val(t))
            } else {
                Some(dec_val(t))
            }
        } else {
            None
        }
    } else if s.len() > 0 && all_digs(s) {
        Some(dec_val(s))
    } else {
        None
    }
}

/// Reads the digits of `s` between `from` and `to` as an `i64`, negated
/// when `neg` is set; `None` when a character there is no digit, the run
/// is empty, or the value does not fit.
pub(crate) fn scan_i64(s: &str, from: usize, to: usize, neg: bool) -> (r: Option<i64>)
    requires
        from <= to <= s@.len(),
    ensures
        ({
            let t = s@.subrange(from as int, to as int);
            let v = if neg { -dec_val(t) } else { dec_val(t) };
            match r {
                Some(u) => from < to && all_digs(t) && u as int == v,
                None => !(from < to && all_digs(t) && i64::MIN <= v <= i64::MAX),
            }
        }),
{
    let ghost t = s@.subrange(from as int, to as int);
    if from >= to {
        return None;
    }
    let mut acc: i64 = 0;
    let mut i = from;
    while i < to
        invariant
            from <= i <= to <= s@.len(),
            t == s@.subrange(from as int, to as int),
            all_digs(s@.subrange(from as int, i as int)),
            acc as int == (if neg {
                -dec_val(s@.subrange(from as int, i as int))
            } else {
                dec_val(s@.subrange(from as int, i as int))
            }),
        decreases to - i,
    {
        let ghost pre = s@.subrange(from as int, i as int);
        let ghost pre1 = s@.subrange(from as int, i as int + 1);
        proof {
            assert(pre1.drop_last() =~= pre);
            assert(pre1.last() == s@[i as int]);
        }
        let c = s.get_char(i);
        let cv = c as u32;
        if cv < 48 || cv > 57 {
            proof {
                assert(t[i - from] == s@[i as int]);
                assert(!all_digs(t));
            }
            return None;
        }
        let d: i64 = (cv - 48) as i64;
        proof {
            assert(is_dig(s@[i as int]));
            assert(d as int == dig_val(s@[i as int]));
            assert(forall|k: int| 0 <= k < pre1.len() ==> is_dig(#[trigger] pre1[k]));
            assert(dec_val(pre1) == dec_val(pre) * 10 + dig_val(s@[i as int]));
        }
        let step = match acc.checked_mul(10) {
            Some(x) => {
                if neg {
                    x.checked_sub(d)
                } else {
                    x.checked_add(d)
                }
            },
            None => None,
        };
        match step {
            Some(next) => {
                acc = next;
            },
            None => {
                proof {
                    if from < to && all_digs(t) {
                        lemma_dec_val_nonneg(pre);
                        lemma_dec_val_prefix(t, i + 1 - from);
                        assert(t.subrange(0, i + 1 - from) =~= pre1);
                    }
                }
                return None;
            },
        }
        i += 1;
    }
    proof {
        assert(s@.subrange(from as int, i as int) =~= t);
    }
    Some(acc)
}

/// Parses an integer literal to an `i64`.
///
/// Returns `Some(v)` exactly when the text is an optionally signed run of
/// decimal digits whose value `v` fits in 64 signed bits.
pub fn parse_i64(s: &str) -> (r: Option<i64>)
    ensures
        match r {
            Some(v) => int_lit_val(s@) == Some(v as int),
            None => match int_lit_val(s@) {
                Some(v) => !(i64::MIN <= v <= i64::MAX),
                None => true,
            },
        },
{
    let n = s.unicode_len();
    if n == 0 {
        return None;
    }
    let c0 = s.get_char(0);
    let neg = c0 == '-';
    let signed = neg || c0 == '+';
    let start: usize = if signed {
        1
    } else {
        0
    };
    let r = scan_i64(s, start, n, neg);
    proof {
        if signed {
            assert(s@.subrange(1, n as int) =~= s@.subrange(start as int, n as int));
        } else {
            assert(s@.subrange(0, n as int) =~= s@);
        }
    }
    r
}

/// The canonical decimal digits of a nonnegative number: no leading
/// zeros, except that zero itself is `0`.
pub open spec fn u_digits(n: nat) -> Seq<char>
    decreases n,
{
    if n < 10 {
        seq![(48 + n) as char]
    } else {
        u_digits(n / 10).push((48 + n % 10) as char)
    }
}

/// The canonical decimal text of an integer: an optional minus sign, then
/// the digits of its magnitude.
pub open spec fn i64_text(v: int) -> Seq<char> {
    if v < 0 {
        seq!['-'] + u_digits((-v) as nat)
    } else {
        u_digits(v as nat)
    }
}

pub proof fn lemma_u_digits(n: nat)
    ensures
        u_digits(n).len() >= 1,
        all_digs(u_digits(n)),
        dec_val(u_digits(n)) == n,
    decreases n,
{
    if n < 10 {
        let c = (48 + n) as char;
        let w = u_digits(n);
        assert(w =~= Seq::empty().push(c));
        assert(w.last() == c);
        assert(w.drop_last() =~= Seq::<char>::empty());
        assert(dec_val(Seq::<char>::empty()) == 0);
        assert(dec_val(w) == dec_val(w.drop_last()) * 10 + dig_val(w.last()));
        assert(dig_val(c) == n);
        assert(is_dig(c));
        assert(forall|i: int| 0 <= i < w.len() ==> is_dig(#[trigger] w[i]));
    } else {
        lemma_u_digits(n / 10);
        assert(n / 10 < n) by (nonlinear_arith)
            requires
                n >= 10,
        ;
        let c = (48 + n % 10) as char;
        let w = u_digits(n / 10).push(c);
        assert(w.drop_last() =~= u_digits(n / 10));
        assert(dig_val(c) == n % 10);
        assert(dec_val(w) == (n / 10) * 10 + n % 10);
        assert((n / 10) * 10 + n % 10 == n) by (nonlinear_arith);
        assert(forall|i: int| 0 <= i < w.len() ==> is_dig(#[trigger] w[i]));
    }
}

pub(crate) fn push_u_digits(out: &mut String, n: u64)
    ensures
        final(out)@ == old(out)@ + u_digits(n as nat),
    decreases n,
{
    if n < 10 {
        out.push((48 + n as u8) as char);
        proof {
            assert(out@ =~= old(out)@ + u_digits(n as nat));
        }
    } else {
        proof {
            assert(n / 10 < n) by (nonlinear_arith)
                requires
                    n >= 10,
            ;
        }
        push_u_digits(out, n / 10);
        out.push((48 + (n % 10) as u8) as char);
        proof {
            assert(out@ =~= old(out)@ + u_digits(n as nat));
        }
    }
}

/// Formats an `i64` as its canonical decimal text: no leading zeros, an
/// optional leading minus, no exponent.
pub fn format_i64(v: i64) -> (s: String)
    ensures
        s@ == i64_text(v as int),
{
    let mut s = String::new();
    if v >= 0 {
        push_u_digits(&mut s, v as u64);
    } else {
        s.push('-');
        let m: u64 = (-(v + 1)) as u64 + 1;
        push_u_digits(&mut s, m);
        proof {
            assert(s@ =~= seq!['-'] + u_digits(m as nat));
        }
    }
    s
}

/// The round trip for integers: parsing the canonical text of any 64-bit
/// value yields that value again.
pub proof fn lemma_i64_round_trip(v: int)
    requires
        i64::MIN <= v <= i64::MAX,
    ensures
        int_lit_val(i64_text(v)) == Some(v),
{
    if v < 0 {
        let m = (-v) as nat;
        lemma_u_digits(m);
        let s = seq!['-'] + u_digits(m);
        assert(s[0] == '-');
        let t = s.subrange(1, s.len() as int);
        assert(t =~= u_digits(m));
    } else {
        let s = u_digits(v as nat);
        lemma_u_digits(v as nat);
        assert(s[0] != '-' && s[0] != '+');
        assert(int_lit_val(s) == Some(dec_val(s)));
    }
}

/// How far a run of decimal digits extends from position `i`.
pub open spec fn dig_run(s: Seq<char>, i: int) -> int
    decreases s.len() - i,
{
    if 0 <= i < s.len() && is_dig(s[i]) {
        1 + dig_run(s, i + 1)
    } else {
        0
    }
}

pub open spec fn is_sign(c: char) -> bool {
    c == '+' || c == '-'
}

/// An exponent part filling the rest of the text: `e` or `E`, an optional
/// sign, then at least one digit.
pub open spec fn exp_tail(s: Seq<char>, i: int) -> bool {
    0 <= i < s.len() && (s[i] == 'e' || s[i] == 'E') && {
        let j = if i + 1 < s.len() && is_sign(s[i + 1]) {
            i + 2
        } else {
            i + 1
        };
        dig_run(s, j) > 0 && j + dig_run(s, j) == s.len()
    }
}

/// The accepted grammar of a float literal: an optional sign, at least
/// one integer digit, an optional fraction of at least one digit, and an
/// optional exponent.
pub open spec fn float_lit(s: Seq<char>) -> bool {
    let i0: int = if s.len() > 0 && is_sign(s[0]) {
        1
    } else {
        0
    };
    let n1 = dig_run(s, i0);
    let i1 = i0 + n1;
    n1 > 0 && (i1 == s.len() || (i1 < s.len() && s[i1] == '.' && {
        let nf = dig_run(s, i1 + 1);
        nf > 0 && {
            let i2 = i1 + 1 + nf;
            i2 == s.len() || exp_tail(s, i2)
        }
    }) || exp_tail(s, i1))
}

fn digit_run(s: &str, from: usize) -> (r: usize)
    requires
        from <= s@.len(),
    ensures
        r == dig_run(s@, from as int),
        from + r <= s@.len(),
{
    let n = s.unicode_len();
    let mut j = from;
    loop
        invariant
            from <= j <= n,
            n == s@.len(),
            dig_run(s@, from as int) == j - from + dig_run(s@, j as int),
        ensures
            from <= j <= n,
            dig_run(s@, from as int) == j - from,
        decreases n - j,
    {
        if j >= n {
            proof {
                assert(dig_run(s@, j as int) == 0);
            }
            break;
        }
        let c = s.get_char(j);
        let cv = c as u32;
        if cv < 48 || cv > 57 {
            proof {
                assert(!is_dig(s@[j as int]));
                assert(dig_run(s@, j as int) == 0);
            }
            break;
        }
        proof {
            assert(is_dig(s@[j as int]));
            assert(dig_run(s@, j as int) == 1 + dig_run(s@, j as int + 1));
        }
        j += 1;
    }
    j - from
}

fn exp_check(s: &str, i: usize) -> (r: bool)
    requires
        i <= s@.len(),
    ensures
        r == exp_tail(s@, i as int),
{
    let n = s.unicode_len();
    if i >= n {
        return false;
    }
    let c = s.get_char(i);
    if c != 'e' && c != 'E' {
        return false;
    }
    let mut j = i + 1;
    if j < n {
        let c2 = s.get_char(j);
        if c2 == '+' || c2 == '-' {
            j += 1;
        }
    }
    let r = digit_run(s, j);
    r > 0 && j + r == n
}

/// Decides the float-literal grammar: true exactly on texts of the shape
/// the library accepts for Float payloads.
pub fn check_float_lit(s: &str) -> (r: bool)
    ensures
        r == float_lit(s@),
{
    let n = s.unicode_len();
    let mut i0: usize = 0;
    if n > 0 {
        let c = s.get_char(0);
        if c == '+' || c == '-' {
            i0 = 1;
        }
    }
    let n1 = digit_run(s, i0);
    if n1 == 0 {
        return false;
    }
    let i1 = i0 + n1;
    if i1 == n {
        return true;
    }
    let c1 = s.get_char(i1);
    if c1 == '.' {
        let nf = digit_run(s, i1 + 1);
        if nf == 0 {
            return false;
        }
        let i2 = i1 + 1 + nf;
        if i2 == n {
            return true;
        }
        return exp_check(s, i2);
    }
    exp_check(s, i1)
}

} // verus!
