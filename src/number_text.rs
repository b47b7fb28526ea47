//! Recognising text that reads as a floating-point number.
//!
//! The grammar is the one documented for `f64`'s `FromStr`: an optional sign,
//! then `inf`, `infinity`, `nan` (in any case) or a decimal number with an
//! optional exponent. Only whether a text is accepted matters here, never the
//! value it denotes.
use vstd::prelude::*;

verus! {

pub open spec fn is_digit(c: char) -> bool {
    '0' <= c && c <= '9'
}

pub open spec fn is_sign(c: char) -> bool {
    c == '+' || c == '-'
}

pub open spec fn is_exp_mark(c: char) -> bool {
    c == 'e' || c == 'E'
}

pub open spec fn all_digits(s: Seq<char>) -> bool {
    forall|i: int| 0 <= i < s.len() ==> is_digit(#[trigger] s[i])
}

/// `Digit+`, `Digit+ '.' Digit*` or `Digit* '.' Digit+`.
pub open spec fn is_mantissa(s: Seq<char>) -> bool {
    ||| s.len() > 0 && all_digits(s)
    ||| s.len() > 1 && exists|p: int|
        0 <= p < s.len() && s[p] == '.' && all_digits(s.subrange(0, p)) && all_digits(
            s.subrange(p + 1, s.len() as int),
        )
}

/// Nothing, or `e` (either case), an optional sign and `Digit+`.
pub open spec fn is_exponent(s: Seq<char>) -> bool {
    ||| s.len() == 0
    ||| s.len() > 1 && is_exp_mark(s[0]) && all_digits(s.subrange(1, s.len() as int))
    ||| s.len() > 2 && is_exp_mark(s[0]) && is_sign(s[1]) && all_digits(
        s.subrange(2, s.len() as int),
    )
}

/// A mantissa followed by an optional exponent.
pub open spec fn is_decimal_number(s: Seq<char>) -> bool {
    exists|e: int|
        0 <= e <= s.len() && is_mantissa(s.subrange(0, e)) && is_exponent(
            s.subrange(e, s.len() as int),
        )
}

/// `s` spells `lower` with each letter in lower or upper case.
pub open spec fn spells(s: Seq<char>, lower: Seq<char>, upper: Seq<char>) -> bool {
    s.len() == lower.len() && forall|i: int|
        0 <= i < s.len() ==> #[trigger] s[i] == lower[i] || s[i] == upper[i]
}

/// `inf`, `infinity` or `nan`, in any case.
pub open spec fn is_special_value(s: Seq<char>) -> bool {
    ||| spells(s, seq!['i', 'n', 'f'], seq!['I', 'N', 'F'])
    ||| spells(
        s,
        seq!['i', 'n', 'f', 'i', 'n', 'i', 't', 'y'],
        seq!['I', 'N', 'F', 'I', 'N', 'I', 'T', 'Y'],
    )
    ||| spells(s, seq!['n', 'a', 'n'], seq!['N', 'A', 'N'])
}

/// The text reads as a floating-point number.
pub open spec fn is_number_text(s: Seq<char>) -> bool {
    let body = if s.len() > 0 && is_sign(s[0]) {
        s.subrange(1, s.len() as int)
    } else {
        s
    };
    is_special_value(body) || is_decimal_number(body)
}

pub(crate) fn spells_word(s: &Vec<char>, start: usize, lower: &Vec<char>, upper: &Vec<char>) -> (r: bool)
    requires
        start <= s@.len(),
        lower@.len() == upper@.len(),
    ensures
        r == spells(s@.subrange(start as int, s@.len() as int), lower@, upper@),
{
    let t = Ghost(s@.subrange(start as int, s@.len() as int));
    let n = s.len();
    if n - start != lower.len() {
        return false;
    }
    let mut i: usize = 0;
    while i < lower.len()
        invariant
            t@ == s@.subrange(start as int, s@.len() as int),
            start <= s@.len() == n,
            s@.len() - start == lower@.len() == upper@.len(),
            i <= lower@.len(),
            forall|k: int| 0 <= k < i ==> #[trigger] t@[k] == lower@[k] || t@[k] == upper@[k],
        decreases lower@.len() - i,
    {
        let c = s[start + i];
        assert(t@[i as int] == c);
        if c != lower[i] && c != upper[i] {
            return false;
        }
        i = i + 1;
    }
    true
}

fn special_value(s: &Vec<char>, start: usize) -> (r: bool)
    requires
        start <= s@.len(),
    ensures
        r == is_special_value(s@.subrange(start as int, s@.len() as int)),
{
    let inf_l = vec!['i', 'n', 'f'];
    let inf_u = vec!['I', 'N', 'F'];
    let infinity_l = vec!['i', 'n', 'f', 'i', 'n', 'i', 't', 'y'];
    let infinity_u = vec!['I', 'N', 'F', 'I', 'N', 'I', 'T', 'Y'];
    let nan_l = vec!['n', 'a', 'n'];
    let nan_u = vec!['N', 'A', 'N'];
    assert(inf_l@ =~= seq!['i', 'n', 'f']);
    assert(inf_u@ =~= seq!['I', 'N', 'F']);
    assert(infinity_l@ =~= seq!['i', 'n', 'f', 'i', 'n', 'i', 't', 'y']);
    assert(infinity_u@ =~= seq!['I', 'N', 'F', 'I', 'N', 'I', 'T', 'Y']);
    assert(nan_l@ =~= seq!['n', 'a', 'n']);
    assert(nan_u@ =~= seq!['N', 'A', 'N']);
    spells_word(s, start, &inf_l, &inf_u) || spells_word(s, start, &infinity_l, &infinity_u)
        || spells_word(s, start, &nan_l, &nan_u)
}

/// Every character of a mantissa is a digit or its one decimal point.
proof fn lemma_mantissa_chars(u: Seq<char>, p: int)
    requires
        is_mantissa(u),
        0 <= p < u.len(),
        !is_digit(u[p]),
    ensures
        u[p] == '.',
        forall|q: int| 0 <= q < u.len() && q != p ==> is_digit(#[trigger] u[q]),
{
    if u.len() > 0 && all_digits(u) {
        assert(is_digit(u[p]));
    } else {
        let d = choose|d: int|
            0 <= d < u.len() && u[d] == '.' && all_digits(u.subrange(0, d)) && all_digits(
                u.subrange(d + 1, u.len() as int),
            );
        if p < d {
            assert(u.subrange(0, d)[p] == u[p]);
        } else if p > d {
            assert(u.subrange(d + 1, u.len() as int)[p - d - 1] == u[p]);
        }
        assert forall|q: int| 0 <= q < u.len() && q != p implies is_digit(#[trigger] u[q]) by {
            if q < d {
                assert(u.subrange(0, d)[q] == u[q]);
            } else {
                assert(u.subrange(d + 1, u.len() as int)[q - d - 1] == u[q]);
            }
        }
    }
}

fn exponent_at(s: &Vec<char>, start: usize) -> (r: bool)
    requires
        start <= s@.len(),
    ensures
        r == is_exponent(s@.subrange(start as int, s@.len() as int)),
{
    let n = s.len();
    let t = Ghost(s@.subrange(start as int, n as int));
    if start == n {
        return true;
    }
    if s[start] != 'e' && s[start] != 'E' {
        assert(t@[0] == s@[start as int]);
        return false;
    }
    let mut first = start + 1;
    if first < n && (s[first] == '+' || s[first] == '-') {
        first = first + 1;
    }
    if first == n {
        proof {
            if t@.len() == 2 {
                assert(t@[1] == s@[start + 1]);
                assert(t@.subrange(1, 2)[0] == t@[1]);
            }
        }
        return false;
    }
    let mut i: usize = first;
    while i < n
        invariant
            start < first <= i <= n == s@.len(),
            first <= start + 2,
            t@ == s@.subrange(start as int, n as int),
            is_exp_mark(s@[start as int]),
            first == start + 2 ==> is_sign(s@[start + 1]),
            first == start + 1 ==> (start + 1 < n ==> !is_sign(s@[start + 1])),
            forall|k: int| first <= k < i ==> is_digit(#[trigger] s@[k]),
        decreases n - i,
    {
        if !(s[i] >= '0' && s[i] <= '9') {
            proof {
                assert(t@[i - start] == s@[i as int]);
                if t@.len() > 1 && all_digits(t@.subrange(1, t@.len() as int)) {
                    assert(t@.subrange(1, t@.len() as int)[i - start - 1] == s@[i as int]);
                    if first == start + 2 {
                        assert(t@.subrange(1, t@.len() as int)[0] == s@[start + 1]);
                    }
                }
                if t@.len() > 2 && is_sign(t@[1]) && all_digits(t@.subrange(2, t@.len() as int)) {
                    if first == start + 2 {
                        assert(t@.subrange(2, t@.len() as int)[i - start - 2] == s@[i as int]);
                    } else {
                        assert(t@[1] == s@[start + 1]);
                    }
                }
            }
            return false;
        }
        i = i + 1;
    }
    proof {
        assert(is_exp_mark(t@[0]));
        if first == start + 2 {
            assert(t@[1] == s@[start + 1]);
            assert forall|k: int| 0 <= k < t@.len() - 2 implies is_digit(
                #[trigger] t@.subrange(2, t@.len() as int)[k],
            ) by {
                assert(t@.subrange(2, t@.len() as int)[k] == s@[start + 2 + k]);
            }
        } else {
            assert forall|k: int| 0 <= k < t@.len() - 1 implies is_digit(
                #[trigger] t@.subrange(1, t@.len() as int)[k],
            ) by {
                assert(t@.subrange(1, t@.len() as int)[k] == s@[start + 1 + k]);
            }
        }
    }
    true
}

fn decimal_number_at(s: &Vec<char>, start: usize) -> (r: bool)
    requires
        start <= s@.len(),
    ensures
        r == is_decimal_number(s@.subrange(start as int, s@.len() as int)),
{
    let n = s.len();
    let t = Ghost(s@.subrange(start as int, n as int));
    let mut i: usize = start;
    while i < n && s[i] >= '0' && s[i] <= '9'
        invariant
            start <= i <= n == s@.len(),
            forall|k: int| start <= k < i ==> is_digit(#[trigger] s@[k]),
        decreases n - i,
    {
        i = i + 1;
    }
    let int_end = i;
    let mut dot = false;
    if i < n && s[i] == '.' {
        dot = true;
        i = i + 1;
        while i < n && s[i] >= '0' && s[i] <= '9'
            invariant
                start <= int_end < i <= n == s@.len(),
                s@[int_end as int] == '.',
                forall|k: int| int_end < k < i ==> is_digit(#[trigger] s@[k]),
            decreases n - i,
        {
            i = i + 1;
        }
    }
    let end = i;
    let digit_count = if dot {
        end - start - 1
    } else {
        end - start
    };
    let m = Ghost((end - start) as int);
    let mant = Ghost(t@.subrange(0, m@));
    assert(end < n ==> !is_digit(s@[end as int]));
    assert(!dot ==> end == int_end && !(end < n && s@[end as int] == '.'));
    assert forall|k: int| 0 <= k < m@ && k != int_end - start implies is_digit(#[trigger] mant@[k]) by {
        assert(mant@[k] == s@[start + k]);
    }
    let ok = if digit_count == 0 {
        false
    } else {
        exponent_at(s, end)
    };
    proof {
        assert(t@.subrange(m@, t@.len() as int) =~= s@.subrange(end as int, n as int));
        if ok {
            if dot {
                let p = int_end - start;
                assert(mant@[p] == '.');
                assert(all_digits(mant@.subrange(0, p))) by {
                    assert forall|k: int| 0 <= k < p implies is_digit(#[trigger] mant@.subrange(0, p)[k]) by {
                        assert(mant@.subrange(0, p)[k] == mant@[k]);
                    }
                }
                assert(all_digits(mant@.subrange(p + 1, m@))) by {
                    assert forall|k: int| 0 <= k < m@ - p - 1 implies is_digit(
                        #[trigger] mant@.subrange(p + 1, m@)[k],
                    ) by {
                        assert(mant@.subrange(p + 1, m@)[k] == mant@[p + 1 + k]);
                    }
                }
                assert(is_mantissa(mant@));
            } else {
                assert(is_mantissa(mant@));
            }
            assert(is_decimal_number(t@));
        } else {
            assert forall|e: int|
                0 <= e <= t@.len() && is_mantissa(#[trigger] t@.subrange(0, e)) implies !is_exponent(
                t@.subrange(e, t@.len() as int),
            ) by {
                let u = t@.subrange(0, e);
                if e < m@ {
                    // the exponent would start with a digit or the point
                    let x = t@.subrange(e, t@.len() as int);
                    assert(x[0] == s@[start + e]);
                    assert(!is_exp_mark(x[0])) by {
                        if e != int_end - start {
                            assert(mant@[e] == s@[start + e]);
                        }
                    }
                } else if e > m@ {
                    assert(u[m@] == s@[end as int]);
                    if is_digit(u[m@]) {
                    } else {
                        lemma_mantissa_chars(u, m@);
                        if dot {
                            let p = int_end - start;
                            assert(u[p] == '.');
                        }
                    }
                } else {
                    assert(u =~= mant@);
                    if digit_count == 0 {
                        if dot {
                            assert(m@ == 1);
                            assert(u[0] == '.');
                            if u.len() > 0 && all_digits(u) {
                                assert(is_digit(u[0]));
                            }
                        }
                    }
                }
            }
        }
    }
    ok
}

/// Whether `s` reads as a floating-point number.
pub fn is_number(s: &Vec<char>) -> (r: bool)
    ensures
        r == is_number_text(s@),
{
    let start: usize = if s.len() > 0 && (s[0] == '+' || s[0] == '-') {
        1
    } else {
        0
    };
    assert(start == 0 ==> s@.subrange(0, s@.len() as int) =~= s@);
    special_value(s, start) || decimal_number_at(s, start)
}

} // verus!
