//! Text helpers: decimal rendering, substring search, and the calls into
//! `std` and `chrono` that classify text.
use vstd::prelude::*;

verus! {

/// The decimal digit `d` (for `d < 10`).
pub open spec fn digit_char(d: nat) -> char {
    if d == 0 {
        '0'
    } else if d == 1 {
        '1'
    } else if d == 2 {
        '2'
    } else if d == 3 {
        '3'
    } else if d == 4 {
        '4'
    } else if d == 5 {
        '5'
    } else if d == 6 {
        '6'
    } else if d == 7 {
        '7'
    } else if d == 8 {
        '8'
    } else {
        '9'
    }
}

/// The decimal representation of `n`, without leading zeros.
pub open spec fn decimal_text(n: nat) -> Seq<char>
    decreases n,
{
    if n < 10 {
        seq![digit_char(n)]
    } else {
        decimal_text(n / 10).push(digit_char(n % 10))
    }
}

fn digit_str(d: u64) -> (r: &'static str)
    requires
        d < 10,
    ensures
        r@ == seq![digit_char(d as nat)],
{
    proof {
        reveal_strlit("0");
        reveal_strlit("1");
        reveal_strlit("2");
        reveal_strlit("3");
        reveal_strlit("4");
        reveal_strlit("5");
        reveal_strlit("6");
        reveal_strlit("7");
        reveal_strlit("8");
        reveal_strlit("9");
    }
    let r = if d == 0 {
        "0"
    } else if d == 1 {
        "1"
    } else if d == 2 {
        "2"
    } else if d == 3 {
        "3"
    } else if d == 4 {
        "4"
    } else if d == 5 {
        "5"
    } else if d == 6 {
        "6"
    } else if d == 7 {
        "7"
    } else if d == 8 {
        "8"
    } else {
        "9"
    };
    assert(r@ =~= seq![digit_char(d as nat)]);
    r
}

/// `n` written in decimal.
pub fn decimal(n: u64) -> (r: String)
    ensures
        r@ == decimal_text(n as nat),
    decreases n,
{
    if n < 10 {
        digit_str(n).to_owned()
    } else {
        let mut s = decimal(n / 10);
        s.append(digit_str(n % 10));
        assert(s@ =~= decimal_text(n as nat));
        s
    }
}

/// `needle` occurs in `hay` at position `at`.
pub open spec fn occurs_at(hay: Seq<char>, needle: Seq<char>, at: int) -> bool {
    0 <= at && at + needle.len() <= hay.len() && hay.subrange(at, at + needle.len()) == needle
}

/// `needle` occurs somewhere in `hay`.
pub open spec fn contains_text(hay: Seq<char>, needle: Seq<char>) -> bool {
    exists|at: int| occurs_at(hay, needle, at)
}

/// The characters of `s`, in order.
pub fn chars_of(s: &str) -> (r: Vec<char>)
    ensures
        r@ == s@,
{
    let n = s.unicode_len();
    let mut r: Vec<char> = Vec::new();
    let mut i: usize = 0;
    while i < n
        invariant
            n == s@.len(),
            i <= n,
            r@ == s@.subrange(0, i as int),
        decreases n - i,
    {
        r.push(s.get_char(i));
        i = i + 1;
        assert(r@ =~= s@.subrange(0, i as int));
    }
    assert(r@ =~= s@);
    r
}

/// Whether `needle` occurs in `hay`.
pub fn text_contains(hay: &Vec<char>, needle: &Vec<char>) -> (r: bool)
    ensures
        r == contains_text(hay@, needle@),
{
    let n = hay.len();
    let m = needle.len();
    if m > n {
        assert forall|at: int| !occurs_at(hay@, needle@, at) by {}
        return false;
    }
    let mut at: usize = 0;
    while at <= n - m
        invariant
            n == hay@.len(),
            m == needle@.len(),
            m <= n,
            at <= n - m + 1,
            forall|k: int| 0 <= k < at ==> !occurs_at(hay@, needle@, k),
        decreases n - m + 1 - at,
    {
        let mut j: usize = 0;
        let mut same = true;
        while j < m
            invariant
                n == hay@.len(),
                m == needle@.len(),
                at + m <= n,
                j <= m,
                same == (forall|l: int| 0 <= l < j ==> hay@[at + l] == needle@[l]),
            decreases m - j,
        {
            if hay[at + j] != needle[j] {
                same = false;
            }
            j = j + 1;
        }
        if same {
            assert(hay@.subrange(at as int, at + m) =~= needle@);
            assert(occurs_at(hay@, needle@, at as int));
            return true;
        }
        assert(!occurs_at(hay@, needle@, at as int)) by {
            if occurs_at(hay@, needle@, at as int) {
                let l = choose|l: int| 0 <= l < m && hay@[at + l] != needle@[l];
                assert(hay@.subrange(at as int, at + m)[l] == hay@[at + l]);
            }
        }
        at = at + 1;
    }
    assert forall|k: int| !occurs_at(hay@, needle@, k) by {
        if 0 <= k < at {
        }
    }
    false
}

/// What `str::to_lowercase` makes of `s`.
pub uninterp spec fn lower_of(s: Seq<char>) -> Seq<char>;

/// Relies on `str::to_lowercase`: the lowercase form depends on the
/// characters of the text alone.
#[verifier::external_body]
pub(crate) fn lowercase(s: &str) -> (r: String)
    ensures
        r@ == lower_of(s@),
{
    s.to_lowercase()
}

/// What `str::trim` makes of `s`.
pub uninterp spec fn trimmed(s: Seq<char>) -> Seq<char>;

/// Relies on `str::trim`: leading and trailing white space removed, a
/// function of the characters alone.
#[verifier::external_body]
pub(crate) fn trim(s: &str) -> (r: String)
    ensures
        r@ == trimmed(s@),
{
    s.trim().to_owned()
}

/// Whether `chrono::NaiveDateTime::from_str` accepts `s`.
pub uninterp spec fn reads_as_datetime(s: Seq<char>) -> bool;

/// Relies on `chrono::NaiveDateTime`'s `FromStr`: it accepts or refuses the
/// text on its characters alone.
#[verifier::external_body]
pub(crate) fn parses_as_datetime(s: &str) -> (r: bool)
    ensures
        r == reads_as_datetime(s@),
{
    s.parse::<chrono::NaiveDateTime>().is_ok()
}

/// Whether `chrono::NaiveDate::from_str` accepts `s`.
pub uninterp spec fn reads_as_date(s: Seq<char>) -> bool;

/// Relies on `chrono::NaiveDate`'s `FromStr`: it accepts or refuses the text
/// on its characters alone.
#[verifier::external_body]
pub(crate) fn parses_as_date(s: &str) -> (r: bool)
    ensures
        r == reads_as_date(s@),
{
    s.parse::<chrono::NaiveDate>().is_ok()
}

/// `1000 * count / total` rounded to the nearest integer, halves up: a
/// percentage in tenths.
pub open spec fn tenths_of_percent(count: nat, total: nat) -> nat {
    (2000 * count + total) / (2 * total)
}

/// `count / total` as a percentage with one decimal, such as `66.7%`.
pub open spec fn percent_text(count: nat, total: nat) -> Seq<char> {
    let t = tenths_of_percent(count, total);
    decimal_text(t / 10) + seq!['.', digit_char(t % 10), '%']
}

/// `count / total` as a percentage with one decimal.
pub fn percent(count: usize, total: usize) -> (r: String)
    requires
        0 < total,
        count <= total,
    ensures
        r@ == percent_text(count as nat, total as nat),
{
    let c = count as u128;
    let n = total as u128;
    assert(2000 * c <= 2000 * n) by (nonlinear_arith)
        requires
            c <= n,
    ;
    let t = (2000 * c + n) / (2 * n);
    assert(t <= 1001) by (nonlinear_arith)
        requires
            t == (2000 * c + n) / (2 * n),
            c <= n,
            n > 0,
    ;
    let t = t as u64;
    let mut s = decimal(t / 10);
    proof {
        reveal_strlit(".");
        reveal_strlit("%");
    }
    s.append(".");
    s.append(digit_str(t % 10));
    s.append("%");
    assert(s@ =~= percent_text(count as nat, total as nat));
    s
}

} // verus!
