//! Numeric field validation: a verified decimal parser for the `u64`
//! timestamp field, and a verified recognizer for the decimal syntax of
//! price fields.
//!
//! Prices are validated and then carried as their exact decimal text;
//! nothing in the engine's logic reads a price's numeric value, so the
//! text is the faithful representation and the rendering layer converts
//! it for drawing.

use vstd::prelude::*;

verus! {

/// A decimal digit character.
pub open spec fn is_digit_char(c: char) -> bool {
    48 <= c as u32 <= 57
}

/// The value of a decimal digit character.
pub open spec fn digit_val(c: char) -> int {
    c as u32 - 48
}

/// Every character of `s` is a decimal digit.
pub open spec fn all_digits(s: Seq<char>) -> bool {
    forall|i: int| 0 <= i < s.len() ==> is_digit_char(#[trigger] s[i])
}

/// The integer a digit string denotes, most significant digit first.
pub open spec fn dec_value(s: Seq<char>) -> int
    decreases s.len(),
{
    if s.len() == 0 {
        0
    } else {
        10 * dec_value(s.drop_last()) + digit_val(s.last())
    }
}

/// `s` without one leading `+` or `-` sign, if present.
pub open spec fn opt_sign(s: Seq<char>) -> Seq<char> {
    if s.len() > 0 && (s[0] == '+' || s[0] == '-') {
        s.drop_first()
    } else {
        s
    }
}

/// The `u64` a string denotes in the syntax the timestamp field must use:
/// an optional leading `+`, then at least one decimal digit, with the value
/// in range — `None` on any other input.
pub open spec fn u64_from_chars(s: Seq<char>) -> Option<u64> {
    let body = if s.len() > 0 && s[0] == '+' {
        s.drop_first()
    } else {
        s
    };
    if body.len() > 0 && all_digits(body) && dec_value(body) <= u64::MAX {
        Some(dec_value(body) as u64)
    } else {
        None
    }
}

proof fn lemma_dec_value_nonneg(s: Seq<char>)
    requires
        all_digits(s),
    ensures
        dec_value(s) >= 0,
    decreases s.len(),
{
    if s.len() > 0 {
        assert(all_digits(s.drop_last())) by {
            assert(forall|i: int| 0 <= i < s.len() - 1 ==> s.drop_last()[i] == s[i]);
        }
        lemma_dec_value_nonneg(s.drop_last());
    }
}

/// A digit string denotes at least as much as any of its prefixes.
proof fn lemma_dec_value_prefix(s: Seq<char>, j: int)
    requires
        all_digits(s),
        0 <= j <= s.len(),
    ensures
        dec_value(s.take(j)) <= dec_value(s),
    decreases s.len() - j,
{
    if j < s.len() {
        assert(s.take(j + 1).drop_last() =~= s.take(j));
        assert(s.take(j + 1).last() == s[j]);
        assert(all_digits(s.take(j))) by {
            assert(forall|i: int| 0 <= i < j ==> s.take(j)[i] == s[i]);
        }
        lemma_dec_value_nonneg(s.take(j));
        assert(dec_value(s.take(j + 1)) == 10 * dec_value(s.take(j)) + digit_val(s[j]));
        lemma_dec_value_prefix(s, j + 1);
    } else {
        assert(s.take(j) =~= s);
    }
}

/// Parses the timestamp syntax: an optional `+` sign followed by decimal
/// digits, rejecting empty bodies, other characters, and values over
/// `u64::MAX`.
pub fn parse_u64_str(s: &str) -> (r: Option<u64>)
    ensures
        r == u64_from_chars(s@),
{
    let n: usize = s.unicode_len();
    if n == 0 {
        return None;
    }
    let first = s.get_char(0);
    let start: usize = if first == '+' {
        1
    } else {
        0
    };
    let ghost body = if s@[0] == '+' {
        s@.drop_first()
    } else {
        s@
    };
    proof {
        if s@[0] == '+' {
            assert(body =~= s@.skip(1));
        }
        assert(body.len() == n - start);
        assert(forall|k: int| 0 <= k < body.len() ==> body[k] == s@[start + k]);
    }
    if start == n {
        return None;
    }
    let mut acc: u64 = 0;
    let mut i: usize = start;
    proof {
        assert(body.take(0) =~= Seq::<char>::empty());
    }
    while i < n
        invariant
            n == s@.len(),
            start <= i <= n,
            start <= 1,
            body == (if s@[0] == '+' {
                s@.drop_first()
            } else {
                s@
            }),
            s@.len() > 0,
            (start == 1) == (s@[0] == '+'),
            body.len() == n - start,
            forall|k: int| 0 <= k < body.len() ==> body[k] == s@[start + k],
            all_digits(body.take(i - start)),
            acc == dec_value(body.take(i - start)),
        decreases n - i,
    {
        let c = s.get_char(i);
        let u = c as u32;
        if u < 48 || u > 57 {
            proof {
                assert(body[i - start] == s@[i as int]);
                assert(!is_digit_char(body[i - start]));
            }
            return None;
        }
        let d: u64 = (u - 48) as u64;
        proof {
            assert(body.take(i - start + 1).drop_last() =~= body.take(i - start));
            assert(body.take(i - start + 1).last() == body[i - start]);
            assert(body[i - start] == s@[i as int]);
            assert(all_digits(body.take(i - start + 1)));
            assert(dec_value(body.take(i - start + 1)) == 10 * dec_value(body.take(i - start))
                + digit_val(body[i - start]));
        }
        let m = match acc.checked_mul(10) {
            Some(m) => m,
            None => {
                proof {
                    if all_digits(body) && dec_value(body) <= u64::MAX {
                        lemma_dec_value_prefix(body, i - start + 1);
                        lemma_dec_value_nonneg(body.take(i - start + 1));
                    }
                }
                return None;
            },
        };
        let a = match m.checked_add(d) {
            Some(a) => a,
            None => {
                proof {
                    if all_digits(body) && dec_value(body) <= u64::MAX {
                        lemma_dec_value_prefix(body, i - start + 1);
                    }
                }
                return None;
            },
        };
        acc = a;
        i = i + 1;
    }
    proof {
        assert(body.take(n - start) =~= body);
    }
    Some(acc)
}

/// An exponent marker character.
pub open spec fn is_e(c: char) -> bool {
    c == 'e' || c == 'E'
}

/// A decimal digit or the decimal point.
pub open spec fn digit_or_dot(c: char) -> bool {
    is_digit_char(c) || c == '.'
}

/// A mantissa: at least one digit, any further characters digits, and at
/// most one decimal point anywhere among them.
pub open spec fn is_mantissa(m: Seq<char>) -> bool {
    &&& m.len() > 0
    &&& forall|j: int| 0 <= j < m.len() ==> digit_or_dot(#[trigger] m[j])
    &&& forall|j1: int, j2: int|
        #![trigger m[j1], m[j2]]
        0 <= j1 < m.len() && 0 <= j2 < m.len() && m[j1] == '.' && m[j2] == '.' ==> j1 == j2
    &&& exists|j: int| 0 <= j < m.len() && is_digit_char(#[trigger] m[j])
}

/// An optionally signed non-empty digit string.
pub open spec fn signed_digits(y: Seq<char>) -> bool {
    opt_sign(y).len() > 0 && all_digits(opt_sign(y))
}

/// An exponent part: either absent, or an exponent marker followed by an
/// optionally signed digit string.
pub open spec fn is_exp_part(x: Seq<char>) -> bool {
    x.len() == 0 || (is_e(x[0]) && signed_digits(x.skip(1)))
}

/// The index of the first exponent marker in `b`, or `b.len()` if none.
pub open spec fn first_e(b: Seq<char>) -> int
    decreases b.len(),
{
    if b.len() == 0 {
        0
    } else if is_e(b[0]) {
        0
    } else {
        1 + first_e(b.drop_first())
    }
}

proof fn lemma_first_e_char(b: Seq<char>, i: int)
    requires
        0 <= i <= b.len(),
        forall|j: int| 0 <= j < i ==> !is_e(#[trigger] b[j]),
        i == b.len() || is_e(b[i]),
    ensures
        first_e(b) == i,
    decreases b.len(),
{
    if b.len() == 0 {
    } else if is_e(b[0]) {
        assert(i == 0);
    } else {
        assert(i >= 1);
        let t = b.drop_first();
        assert(forall|j: int| 0 <= j < i - 1 ==> t[j] == b[j + 1]);
        if i < b.len() {
            assert(t[i - 1] == b[i]);
        }
        lemma_first_e_char(t, i - 1);
    }
}

/// The decimal syntax a price field must use: an optional sign, a mantissa,
/// and an optional exponent. Splitting at the first exponent marker is
/// exact, because a mantissa never contains one.
pub open spec fn is_price_text(s: Seq<char>) -> bool {
    let b = opt_sign(s);
    is_mantissa(b.take(first_e(b))) && is_exp_part(b.skip(first_e(b)))
}

/// Decides whether `s` uses the price syntax of [`is_price_text`].
pub fn check_price(s: &str) -> (r: bool)
    ensures
        r == is_price_text(s@),
{
    let n: usize = s.unicode_len();
    let start: usize = if n > 0 {
        let c0 = s.get_char(0);
        if c0 == '+' || c0 == '-' {
            1
        } else {
            0
        }
    } else {
        0
    };
    let ghost b = opt_sign(s@);
    proof {
        if n > 0 && (s@[0] == '+' || s@[0] == '-') {
            assert(b =~= s@.skip(1));
        }
        assert(b.len() == n - start);
        assert(forall|k: int| 0 <= k < b.len() ==> b[k] == s@[start + k]);
    }
    // find the first exponent marker
    let mut k: usize = start;
    loop
        invariant
            n == s@.len(),
            start <= k <= n,
            b.len() == n - start,
            forall|j: int| 0 <= j < b.len() ==> b[j] == s@[start + j],
            forall|j: int| start <= j < k ==> !is_e(#[trigger] s@[j]),
        ensures
            start <= k <= n,
            forall|j: int| start <= j < k ==> !is_e(#[trigger] s@[j]),
            k == n || is_e(s@[k as int]),
        decreases n - k,
    {
        if k < n {
            let c = s.get_char(k);
            if c == 'e' || c == 'E' {
                break;
            }
            k = k + 1;
        } else {
            break;
        }
    }
    proof {
        assert(forall|j: int| 0 <= j < k - start ==> !is_e(#[trigger] b[j]));
        if k < n {
            assert(b[k - start] == s@[k as int]);
        }
        lemma_first_e_char(b, k - start);
    }
    let ghost m = b.take(first_e(b));
    proof {
        assert(m.len() == k - start);
        assert(forall|j: int| 0 <= j < m.len() ==> m[j] == s@[start + j]);
    }
    // check the mantissa: digits with at most one dot, at least one digit
    if k == start {
        // an empty mantissa is never valid
        proof {
            assert(!is_mantissa(m));
        }
        return false;
    }
    let mut saw_digit = false;
    let mut dot: Option<usize> = None;
    let mut j: usize = start;
    loop
        invariant
            n == s@.len(),
            start <= j <= k <= n,
            b == opt_sign(s@),
            m == b.take(first_e(b)),
            m.len() == k - start,
            forall|q: int| 0 <= q < m.len() ==> m[q] == s@[start + q],
            forall|q: int| 0 <= q < j - start ==> digit_or_dot(#[trigger] m[q]),
            saw_digit == exists|q: int| 0 <= q < j - start && is_digit_char(#[trigger] m[q]),
            match dot {
                Some(d) => start <= d < j && m[d - start] == '.' && forall|q: int|
                    0 <= q < j - start && m[q] == '.' ==> q == d - start,
                None => forall|q: int| 0 <= q < j - start ==> m[q] != '.',
            },
        ensures
            j == k,
            forall|q: int| 0 <= q < m.len() ==> digit_or_dot(#[trigger] m[q]),
            saw_digit == exists|q: int| 0 <= q < m.len() && is_digit_char(#[trigger] m[q]),
            forall|q1: int, q2: int|
                #![trigger m[q1], m[q2]]
                0 <= q1 < m.len() && 0 <= q2 < m.len() && m[q1] == '.' && m[q2] == '.' ==> q1
                    == q2,
        decreases k - j,
    {
        if j < k {
            let c = s.get_char(j);
            let u = c as u32;
            if 48 <= u && u <= 57 {
                proof {
                    assert(m[j - start] == s@[j as int]);
                    assert(is_digit_char(m[j - start]));
                }
                saw_digit = true;
            } else if c == '.' {
                proof {
                    assert(m[j - start] == s@[j as int]);
                }
                match dot {
                    Some(_) => {
                        proof {
                            let d0 = dot->Some_0;
                            assert(m[d0 - start] == '.');
                            assert(m[j - start] == '.');
                            assert(!is_mantissa(m));
                        }
                        return false;
                    },
                    None => {
                        dot = Some(j);
                    },
                }
            } else {
                proof {
                    assert(m[j - start] == s@[j as int]);
                    assert(!digit_or_dot(m[j - start]));
                    assert(!is_mantissa(m));
                }
                return false;
            }
            j = j + 1;
        } else {
            break;
        }
    }
    if !saw_digit {
        proof {
            assert(!is_mantissa(m));
        }
        return false;
    }
    proof {
        assert(is_mantissa(m));
    }
    // check the exponent part
    let ghost x = b.skip(first_e(b));
    proof {
        assert(x.len() == n - k);
        assert(forall|q: int| 0 <= q < x.len() ==> x[q] == s@[k + q]);
    }
    if k == n {
        proof {
            assert(x.len() == 0);
        }
        return true;
    }
    // s@[k] is an exponent marker; its argument must be signed digits
    let estart: usize = if k + 1 < n {
        let c = s.get_char(k + 1);
        if c == '+' || c == '-' {
            k + 2
        } else {
            k + 1
        }
    } else {
        k + 1
    };
    let ghost y = x.skip(1);
    let ghost z = opt_sign(y);
    proof {
        assert(forall|q: int| 0 <= q < y.len() ==> y[q] == s@[k + 1 + q]);
        if y.len() > 0 && (y[0] == '+' || y[0] == '-') {
            assert(z =~= y.skip(1));
        }
        assert(z.len() == n - estart);
        assert(forall|q: int| 0 <= q < z.len() ==> z[q] == s@[estart + q]);
    }
    if estart == n {
        proof {
            assert(!signed_digits(y));
        }
        return false;
    }
    let mut p: usize = estart;
    loop
        invariant
            n == s@.len(),
            estart <= p <= n,
            k < n,
            b == opt_sign(s@),
            x == b.skip(first_e(b)),
            x.len() == n - k,
            y == x.skip(1),
            z == opt_sign(y),
            z.len() == n - estart,
            forall|q: int| 0 <= q < z.len() ==> z[q] == s@[estart + q],
            forall|q: int| 0 <= q < p - estart ==> is_digit_char(#[trigger] z[q]),
        ensures
            p == n,
            all_digits(z),
        decreases n - p,
    {
        if p < n {
            let c = s.get_char(p);
            let u = c as u32;
            if u < 48 || u > 57 {
                proof {
                    assert(z[p - estart] == s@[p as int]);
                    assert(!is_digit_char(z[p - estart]));
                    assert(!all_digits(z));
                    assert(!signed_digits(y));
                }
                return false;
            }
            proof {
                assert(z[p - estart] == s@[p as int]);
            }
            p = p + 1;
        } else {
            break;
        }
    }
    proof {
        assert(signed_digits(y));
        assert(is_exp_part(x));
    }
    true
}

} // verus!
