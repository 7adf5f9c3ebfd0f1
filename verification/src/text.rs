//! Text as sequences of characters: the few string operations the library relies on.

use vstd::prelude::*;
use vstd::string::StringExecFns;
use vstd::utf8::{decode_utf8, valid_utf8};

verus! {

/// The characters with the Unicode property `White_Space`.
pub open spec fn is_white_space(c: char) -> bool {
    ||| '\u{9}' <= c <= '\u{d}'
    ||| c == '\u{20}'
    ||| c == '\u{85}'
    ||| c == '\u{a0}'
    ||| c == '\u{1680}'
    ||| '\u{2000}' <= c <= '\u{200a}'
    ||| c == '\u{2028}'
    ||| c == '\u{2029}'
    ||| c == '\u{202f}'
    ||| c == '\u{205f}'
    ||| c == '\u{3000}'
}

/// `s` without its leading white space.
pub open spec fn trim_start(s: Seq<char>) -> Seq<char>
    decreases s.len(),
{
    if s.len() > 0 && is_white_space(s.first()) {
        trim_start(s.drop_first())
    } else {
        s
    }
}

/// `s` without its trailing white space.
pub open spec fn trim_end(s: Seq<char>) -> Seq<char>
    decreases s.len(),
{
    if s.len() > 0 && is_white_space(s.last()) {
        trim_end(s.drop_last())
    } else {
        s
    }
}

/// `s` without leading and trailing white space.
pub open spec fn trimmed(s: Seq<char>) -> Seq<char> {
    trim_end(trim_start(s))
}

/// `str::trim`: the text without its leading and trailing `White_Space` characters.
pub assume_specification[ str::trim ](s: &str) -> (r: &str)
    ensures
        r@ == trimmed(s@),
;

/// The text of `str::to_lowercase` for a given text.
pub uninterp spec fn lowercase(s: Seq<char>) -> Seq<char>;

/// The lower-case form of an ASCII character; every other character is left as it is.
pub open spec fn ascii_lower(c: char) -> char {
    if 'A' <= c <= 'Z' {
        (c as u32 + 32) as char
    } else {
        c
    }
}

/// A text with its ASCII letters in lower case.
pub open spec fn ascii_lowered(s: Seq<char>) -> Seq<char> {
    s.map_values(|c: char| ascii_lower(c))
}

/// The upper-case form of an ASCII character; every other character is left as it is.
pub open spec fn ascii_upper(c: char) -> char {
    if 'a' <= c <= 'z' {
        (c as u32 - 32) as char
    } else {
        c
    }
}

/// A text with its ASCII letters in upper case.
pub open spec fn ascii_uppered(s: Seq<char>) -> Seq<char> {
    s.map_values(|c: char| ascii_upper(c))
}

/// Whether every character is below U+0080.
pub open spec fn all_ascii(s: Seq<char>) -> bool {
    forall|i: int| 0 <= i < s.len() ==> (#[trigger] s[i] as u32) < 0x80
}

/// `str::to_lowercase`: a function of the text alone, for which the case of the ASCII letters
/// does not matter, and which on ASCII text lowers the letters one by one.
pub assume_specification[ str::to_lowercase ](s: &str) -> (r: String)
    ensures
        r@ == lowercase(s@),
        r@ == lowercase(ascii_lowered(s@)),
        r@ == lowercase(ascii_uppered(s@)),
        all_ascii(s@) ==> r@ == ascii_lowered(s@),
;

/// Whether `s` ends with `suffix`.
pub open spec fn ends_with(s: Seq<char>, suffix: Seq<char>) -> bool {
    suffix.is_suffix_of(s)
}

/// What stands before `suffix` in a text that ends with it.
pub open spec fn before_suffix(s: Seq<char>, suffix: Seq<char>) -> Seq<char> {
    s.take(s.len() - suffix.len())
}

/// `str::strip_suffix` with a string for a pattern: what stands before `suffix`, where the
/// text ends with it.
#[verifier::external_body]
pub(crate) fn strip_suffix<'a>(s: &'a str, suffix: &str) -> (r: Option<&'a str>)
    ensures
        r is Some <==> ends_with(s@, suffix@),
        r is Some ==> r->0@ == before_suffix(s@, suffix@),
{
    s.strip_suffix(suffix)
}

/// The value of a sequence of decimal digits, the most significant first.
pub open spec fn digits_value(s: Seq<char>) -> nat
    decreases s.len(),
{
    if s.len() == 0 {
        0
    } else {
        digits_value(s.drop_last()) * 10 + (s.last() as u32 - '0' as u32) as nat
    }
}

/// Whether `s` is one or more decimal digits.
pub open spec fn is_digits(s: Seq<char>) -> bool {
    s.len() > 0 && forall|i: int| 0 <= i < s.len() ==> '0' <= #[trigger] s[i] <= '9'
}

/// The integer that `s` writes: an optional sign, then one or more decimal digits.
pub open spec fn integer_text(s: Seq<char>) -> Option<int> {
    if is_digits(s) {
        Some(digits_value(s) as int)
    } else if s.len() > 0 && s.first() == '+' && is_digits(s.drop_first()) {
        Some(digits_value(s.drop_first()) as int)
    } else if s.len() > 0 && s.first() == '-' && is_digits(s.drop_first()) {
        Some(-(digits_value(s.drop_first()) as int))
    } else {
        None
    }
}

/// The `i64` that `s` writes, where it writes one in range.
pub open spec fn i64_text(s: Seq<char>) -> Option<i64> {
    match integer_text(s) {
        Some(n) => if i64::MIN <= n <= i64::MAX {
            Some(n as i64)
        } else {
            None
        },
        None => None,
    }
}

/// `str::parse` for `i64`: an optional sign followed by digits, within the type's range.
#[verifier::external_body]
pub(crate) fn parse_i64(s: &str) -> (r: Option<i64>)
    ensures
        r == i64_text(s@),
{
    s.parse::<i64>().ok()
}

/// The decimal digits of a natural number, without leading zeros.
pub open spec fn decimal_digits(n: nat) -> Seq<char>
    decreases n,
{
    if n < 10 {
        seq![('0' as u32 + n) as char]
    } else {
        decimal_digits(n / 10).push(('0' as u32 + n % 10) as char)
    }
}

/// An integer in decimal, with a minus sign where it is negative.
pub open spec fn decimal(n: int) -> Seq<char> {
    if n < 0 {
        seq!['-'] + decimal_digits((-n) as nat)
    } else {
        decimal_digits(n as nat)
    }
}

/// `ToString` for `i64`: the number in decimal.
#[verifier::external_body]
pub(crate) fn i64_to_string(n: i64) -> (r: String)
    ensures
        r@ == decimal(n as int),
{
    n.to_string()
}

/// `std::str::from_utf8`: the text that the bytes encode, where they are UTF-8.
#[verifier::external_body]
pub(crate) fn utf8_text(data: &[u8]) -> (r: Option<&str>)
    ensures
        r is Some <==> valid_utf8(data@),
        r is Some ==> r->0@ == decode_utf8(data@),
{
    std::str::from_utf8(data).ok()
}

/// Equality of texts.
pub(crate) fn same_text(a: &str, b: &str) -> (r: bool)
    ensures
        r == (a@ == b@),
{
    a.to_owned() == b.to_owned()
}

/// `a` and `b` one after the other.
pub(crate) fn join2(a: &str, b: &str) -> (r: String)
    ensures
        r@ == a@ + b@,
{
    let mut r = a.to_owned();
    r.append(b);
    r
}

/// `a`, `b` and `c` one after the other.
pub(crate) fn join3(a: &str, b: &str, c: &str) -> (r: String)
    ensures
        r@ == a@ + b@ + c@,
{
    let mut r = a.to_owned();
    r.append(b);
    r.append(c);
    r
}

/// White space around a text does not change the text that is left without it.
pub proof fn lemma_trimmed_around(before: Seq<char>, s: Seq<char>, after: Seq<char>)
    requires
        forall|i: int| 0 <= i < before.len() ==> is_white_space(#[trigger] before[i]),
        forall|i: int| 0 <= i < after.len() ==> is_white_space(#[trigger] after[i]),
    ensures
        trimmed(before + s + after) == trimmed(s),
    decreases before.len() + s.len(),
{
    let all = before + s + after;
    if before.len() > 0 {
        assert(all.first() == before[0]);
        assert(all.drop_first() == before.drop_first() + s + after);
        lemma_trimmed_around(before.drop_first(), s, after);
    } else if s.len() > 0 && is_white_space(s.first()) {
        assert(all.first() == s[0]);
        assert(all.drop_first() == before + s.drop_first() + after);
        lemma_trimmed_around(before, s.drop_first(), after);
    } else if s.len() > 0 {
        assert(all == s + after);
        assert(all.first() == s.first());
        lemma_trim_end_after(s, after);
    } else {
        assert(all == after);
        lemma_trim_start_all(after);
    }
}

/// White space is taken from around a text before or after its characters are changed one by
/// one, where no change makes or unmakes white space.
pub proof fn lemma_trimmed_mapped(s: Seq<char>, f: spec_fn(char) -> char)
    requires
        forall|c: char| is_white_space(#[trigger] f(c)) <==> is_white_space(c),
    ensures
        trimmed(s.map_values(f)) == trimmed(s).map_values(f),
{
    lemma_trim_start_mapped(s, f);
    lemma_trim_end_mapped(trim_start(s), f);
}

proof fn lemma_trim_start_mapped(s: Seq<char>, f: spec_fn(char) -> char)
    requires
        forall|c: char| is_white_space(#[trigger] f(c)) <==> is_white_space(c),
    ensures
        trim_start(s.map_values(f)) == trim_start(s).map_values(f),
    decreases s.len(),
{
    if s.len() > 0 && is_white_space(s.first()) {
        assert(s.map_values(f).first() == f(s.first()));
        assert(s.map_values(f).drop_first() == s.drop_first().map_values(f));
        lemma_trim_start_mapped(s.drop_first(), f);
    } else if s.len() > 0 {
        assert(s.map_values(f).first() == f(s.first()));
    }
}

proof fn lemma_trim_end_mapped(s: Seq<char>, f: spec_fn(char) -> char)
    requires
        forall|c: char| is_white_space(#[trigger] f(c)) <==> is_white_space(c),
    ensures
        trim_end(s.map_values(f)) == trim_end(s).map_values(f),
    decreases s.len(),
{
    if s.len() > 0 && is_white_space(s.last()) {
        assert(s.map_values(f).last() == f(s.last()));
        assert(s.map_values(f).drop_last() == s.drop_last().map_values(f));
        lemma_trim_end_mapped(s.drop_last(), f);
    } else if s.len() > 0 {
        assert(s.map_values(f).last() == f(s.last()));
    }
}

proof fn lemma_trim_end_after(s: Seq<char>, after: Seq<char>)
    requires
        forall|i: int| 0 <= i < after.len() ==> is_white_space(#[trigger] after[i]),
    ensures
        trim_end(s + after) == trim_end(s),
    decreases after.len(),
{
    if after.len() > 0 {
        assert((s + after).last() == after[after.len() - 1]);
        assert((s + after).drop_last() == s + after.drop_last());
        lemma_trim_end_after(s, after.drop_last());
    } else {
        assert(s + after == s);
    }
}

proof fn lemma_trim_start_all(s: Seq<char>)
    requires
        forall|i: int| 0 <= i < s.len() ==> is_white_space(#[trigger] s[i]),
    ensures
        trim_start(s) == Seq::<char>::empty(),
    decreases s.len(),
{
    if s.len() > 0 {
        lemma_trim_start_all(s.drop_first());
    } else {
        assert(s == Seq::<char>::empty());
    }
}

} // verus!
