//! Text primitives: what the parsers need from `str`, with contracts over the
//! character sequence that a string views as.
use vstd::prelude::*;

verus! {

/// The characters of the Unicode property `White_Space`, the set that
/// `str::trim` removes.
pub open spec fn is_white_space(c: char) -> bool {
    ('\u{9}' <= c && c <= '\u{d}') || c == ' ' || c == '\u{85}' || c == '\u{a0}' || c
        == '\u{1680}' || ('\u{2000}' <= c && c <= '\u{200a}') || c == '\u{2028}' || c
        == '\u{2029}' || c == '\u{202f}' || c == '\u{205f}' || c == '\u{3000}'
}

/// `s` without its leading white space.
pub open spec fn trim_start(s: Seq<char>) -> Seq<char>
    decreases s.len(),
{
    if s.len() > 0 && is_white_space(s[0]) {
        trim_start(s.drop_first())
    } else {
        s
    }
}

/// `s` without its trailing white space.
pub open spec fn trim_end(s: Seq<char>) -> Seq<char>
    decreases s.len(),
{
    if s.len() > 0 && is_white_space(s.last()) {
        trim_end(s.drop_last())
    } else {
        s
    }
}

/// `s` without white space at either end.
pub open spec fn trimmed(s: Seq<char>) -> Seq<char> {
    trim_end(trim_start(s))
}

/// Whether `p` occurs in `s` as a contiguous run.
pub open spec fn occurs_in(p: Seq<char>, s: Seq<char>) -> bool {
    exists|i: int| 0 <= i && i + p.len() <= s.len() && #[trigger] s.subrange(i, i + p.len()) == p
}

/// The text before and the text after the first `d` in `s`, or `None` where
/// `d` does not occur.
pub open spec fn split_on(s: Seq<char>, d: char) -> Option<(Seq<char>, Seq<char>)>
    decreases s.len(),
{
    if s.len() == 0 {
        None
    } else if s[0] == d {
        Some((Seq::<char>::empty(), s.drop_first()))
    } else {
        match split_on(s.drop_first(), d) {
            Some((a, b)) => Some((seq![s[0]] + a, b)),
            None => None,
        }
    }
}

/// A split at the first `d` is the one that `split_on` describes.
pub proof fn lemma_split_on(s: Seq<char>, d: char, a: Seq<char>, b: Seq<char>)
    requires
        s == a + seq![d] + b,
        !a.contains(d),
    ensures
        split_on(s, d) == Some((a, b)),
    decreases a.len(),
{
    if a.len() == 0 {
        assert(s[0] == d);
        assert(s.drop_first() =~= b);
    } else {
        assert(s[0] == a[0]);
        assert(a[0] != d);
        let t = a.drop_first();
        assert(s.drop_first() =~= t + seq![d] + b);
        assert(!t.contains(d)) by {
            if t.contains(d) {
                let j = choose|j: int| 0 <= j < t.len() && t[j] == d;
                assert(a[j + 1] == d);
            }
        }
        lemma_split_on(s.drop_first(), d, t, b);
        assert(seq![s[0]] + t =~= a);
    }
}

/// Where `d` does not occur, `split_on` finds nothing.
pub proof fn lemma_split_on_none(s: Seq<char>, d: char)
    requires
        !s.contains(d),
    ensures
        split_on(s, d) is None,
    decreases s.len(),
{
    if s.len() > 0 {
        assert(s[0] != d);
        assert(!s.drop_first().contains(d)) by {
            if s.drop_first().contains(d) {
                let j = choose|j: int| 0 <= j < s.drop_first().len() && s.drop_first()[j] == d;
                assert(s[j + 1] == d);
            }
        }
        lemma_split_on_none(s.drop_first(), d);
    }
}

/// What follows the first `d` is shorter than the text.
pub proof fn lemma_split_on_shorter(s: Seq<char>, d: char)
    ensures
        split_on(s, d) matches Some((a, b)) ==> s == a + seq![d] + b && b.len() < s.len(),
    decreases s.len(),
{
    if s.len() > 0 && s[0] != d {
        lemma_split_on_shorter(s.drop_first(), d);
        if let Some((a, b)) = split_on(s.drop_first(), d) {
            assert(s =~= seq![s[0]] + s.drop_first());
            assert(s =~= (seq![s[0]] + a) + seq![d] + b);
        }
    } else if s.len() > 0 {
        assert(s =~= Seq::<char>::empty() + seq![d] + s.drop_first());
    }
}

/// Where `d` occurs, `split_on` finds it.
pub proof fn lemma_split_on_some(s: Seq<char>, d: char)
    requires
        s.contains(d),
    ensures
        split_on(s, d) is Some,
    decreases s.len(),
{
    if s[0] != d {
        let j = choose|j: int| 0 <= j < s.len() && s[j] == d;
        assert(s.drop_first()[j - 1] == d);
        lemma_split_on_some(s.drop_first(), d);
    }
}

/// Whether `s` has no white space at either end.
pub open spec fn is_trimmed(s: Seq<char>) -> bool {
    s.len() == 0 || (!is_white_space(s[0]) && !is_white_space(s.last()))
}

/// Trimming the front of `x + t` trims into `t` only where `x` is all white
/// space.
pub proof fn lemma_trim_start_concat(x: Seq<char>, t: Seq<char>)
    ensures
        trim_start(x + t) == if trim_start(x).len() > 0 {
            trim_start(x) + t
        } else {
            trim_start(t)
        },
    decreases x.len(),
{
    if x.len() == 0 {
        assert(x + t =~= t);
    } else if is_white_space(x[0]) {
        assert((x + t).drop_first() =~= x.drop_first() + t);
        lemma_trim_start_concat(x.drop_first(), t);
    } else {
        assert((x + t)[0] == x[0]);
    }
}

/// White space added at the end is trimmed away.
pub proof fn lemma_trimmed_push_white(x: Seq<char>, c: char)
    requires
        is_white_space(c),
    ensures
        trimmed(x.push(c)) == trimmed(x),
{
    lemma_trim_start_concat(x, seq![c]);
    assert(x.push(c) =~= x + seq![c]);
    let t = trim_start(x);
    if t.len() > 0 {
        assert((t + seq![c]).drop_last() =~= t);
    } else {
        assert(seq![c].drop_first() =~= Seq::<char>::empty());
        assert(trim_start(seq![c]) == trim_start(Seq::<char>::empty()));
        assert(t =~= Seq::<char>::empty()) by {
            if t.len() != 0 {
            }
        }
    }
}

/// A trimmed text followed by white space trims back to itself.
pub proof fn lemma_trimmed_then_white(x: Seq<char>, c: char)
    requires
        is_trimmed(x),
        is_white_space(c),
    ensures
        trimmed(x.push(c)) == x,
{
    lemma_trimmed_push_white(x, c);
    lemma_trimmed_is_itself(x);
}

/// White space put in front is trimmed away.
pub proof fn lemma_trimmed_white_then(c: char, x: Seq<char>)
    requires
        is_trimmed(x),
        is_white_space(c),
    ensures
        trimmed(seq![c] + x) == x,
{
    assert((seq![c] + x).drop_first() =~= x);
    assert((seq![c] + x)[0] == c);
    lemma_trimmed_is_itself(x);
}

/// A trimmed text trims to itself.
pub proof fn lemma_trimmed_is_itself(x: Seq<char>)
    requires
        is_trimmed(x),
    ensures
        trimmed(x) == x,
{
}

/// Where `s` starts with `p` and `p` holds no `d`, the text before the first
/// `d` starts with `p` too.
pub proof fn lemma_prefix_before_split(s: Seq<char>, d: char, p: Seq<char>)
    requires
        p.is_prefix_of(s),
        !p.contains(d),
        split_on(s, d) is Some,
    ensures
        p.is_prefix_of(split_on(s, d)->Some_0.0),
{
    lemma_split_on_shorter(s, d);
    let (a, b) = split_on(s, d)->Some_0;
    if a.len() < p.len() {
        assert(s[a.len() as int] == d);
        assert(p[a.len() as int] == d);
    } else {
        assert forall|i: int| 0 <= i < p.len() implies a[i] == p[i] by {
            assert(s[i] == a[i]);
        }
        assert(p =~= a.subrange(0, p.len() as int));
    }
}

/// Whether `c` is one of the ASCII digits.
pub open spec fn is_digit(c: char) -> bool {
    '0' <= c && c <= '9'
}

/// The value of a run of decimal digits.
pub open spec fn decimal_value(s: Seq<char>) -> nat
    decreases s.len(),
{
    if s.len() == 0 {
        0
    } else {
        decimal_value(s.drop_last()) * 10 + ((s.last() as nat) - ('0' as nat)) as nat
    }
}

/// The digits of an unsigned number as `str::parse` reads it: one leading `+`
/// is allowed.
pub open spec fn unsigned_digits(s: Seq<char>) -> Seq<char> {
    if s.len() > 0 && s[0] == '+' {
        s.drop_first()
    } else {
        s
    }
}

/// Whether `s` is the decimal text of a `u32`.
pub open spec fn is_u32_text(s: Seq<char>) -> bool {
    let d = unsigned_digits(s);
    &&& d.len() > 0
    &&& forall|i: int| 0 <= i < d.len() ==> is_digit(#[trigger] d[i])
    &&& decimal_value(d) <= u32::MAX
}

/// The error that `str::parse` gives for an integer.
#[verifier::external_type_specification]
#[verifier::external_body]
pub struct ExParseIntError(std::num::ParseIntError);

/// Relies on `str::split_once` with a `char` pattern: the text before and the
/// text after the first occurrence of `d`, or `None` where `d` does not occur.
#[verifier::external_body]
fn std_split_once<'a>(s: &'a str, d: char) -> (r: Option<(&'a str, &'a str)>)
    ensures
        match r {
            Some((a, b)) => s@ == a@ + seq![d] + b@ && !a@.contains(d),
            None => !s@.contains(d),
        },
{
    s.split_once(d)
}

/// Splits `s` at the first `d`.
pub(crate) fn split_once<'a>(s: &'a str, d: char) -> (r: Option<(&'a str, &'a str)>)
    ensures
        match r {
            Some((a, b)) => split_on(s@, d) == Some((a@, b@)),
            None => split_on(s@, d) is None,
        },
{
    let r = std_split_once(s, d);
    proof {
        match r {
            Some((a, b)) => lemma_split_on(s@, d, a@, b@),
            None => lemma_split_on_none(s@, d),
        }
    }
    r
}

/// Relies on `str::strip_prefix` with a `&str` pattern: the rest of `s` where
/// it starts with `p`.
#[verifier::external_body]
pub(crate) fn strip_prefix<'a>(s: &'a str, p: &str) -> (r: Option<&'a str>)
    ensures
        match r {
            Some(rest) => s@ == p@ + rest@,
            None => !p@.is_prefix_of(s@),
        },
{
    s.strip_prefix(p)
}

/// Relies on `str::strip_suffix` with a `char` pattern: `s` without its last
/// character where that character is `c`.
#[verifier::external_body]
pub(crate) fn strip_suffix(s: &str, c: char) -> (r: Option<&str>)
    ensures
        match r {
            Some(rest) => s@ == rest@.push(c),
            None => s@.len() == 0 || s@.last() != c,
        },
{
    s.strip_suffix(c)
}

/// Relies on `<str as PartialEq>::eq`: equal where the characters are.
#[verifier::external_body]
pub(crate) fn str_eq(a: &str, b: &str) -> (r: bool)
    ensures
        r == (a@ == b@),
{
    a == b
}

/// Relies on `str::starts_with` with a `&str` pattern.
#[verifier::external_body]
pub(crate) fn starts_with(s: &str, p: &str) -> (r: bool)
    ensures
        r == p@.is_prefix_of(s@),
{
    s.starts_with(p)
}

/// Relies on `str::ends_with` with a `&str` pattern.
#[verifier::external_body]
pub(crate) fn ends_with(s: &str, p: &str) -> (r: bool)
    ensures
        r == p@.is_suffix_of(s@),
{
    s.ends_with(p)
}

/// Relies on `str::contains` with a `&str` pattern.
#[verifier::external_body]
pub(crate) fn contains(s: &str, p: &str) -> (r: bool)
    ensures
        r == occurs_in(p@, s@),
{
    s.contains(p)
}

/// Relies on `str::trim`: `s` without leading and trailing `White_Space`.
#[verifier::external_body]
pub(crate) fn trim(s: &str) -> (r: &str)
    ensures
        r@ == trimmed(s@),
{
    s.trim()
}

/// Relies on `str::parse::<u32>`: an optional `+` and decimal digits whose
/// value fits in a `u32`; anything else is an error.
#[verifier::external_body]
pub(crate) fn parse_u32(s: &str) -> (r: Result<u32, std::num::ParseIntError>)
    ensures
        match r {
            Ok(v) => is_u32_text(s@) && v as nat == decimal_value(unsigned_digits(s@)),
            Err(_) => !is_u32_text(s@),
        },
{
    s.parse::<u32>()
}

} // verus!
