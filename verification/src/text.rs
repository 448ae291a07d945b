use vstd::prelude::*;

verus! {

/// Whether `c` has the Unicode `White_Space` property, which is what `char::is_whitespace`
/// tests: the ASCII tab, line feed, vertical tab, form feed, carriage return and space,
/// and `U+0085`, `U+00A0`, `U+1680`, `U+2000` to `U+200A`, `U+2028`, `U+2029`, `U+202F`,
/// `U+205F` and `U+3000`.
pub open spec fn char_is_whitespace(c: char) -> bool {
    ||| '\u{9}' <= c <= '\u{d}'
    ||| c == ' '
    ||| c == '\u{85}'
    ||| c == '\u{a0}'
    ||| c == '\u{1680}'
    ||| '\u{2000}' <= c <= '\u{200a}'
    ||| c == '\u{2028}'
    ||| c == '\u{2029}'
    ||| c == '\u{202f}'
    ||| c == '\u{205f}'
    ||| c == '\u{3000}'
}

/// Whether `char::is_numeric` holds of `c` (Unicode number categories).
pub uninterp spec fn char_is_numeric(c: char) -> bool;

/// Whether `char::is_alphanumeric` holds of `c` (alphabetic or numeric).
pub uninterp spec fn char_is_alphanumeric(c: char) -> bool;

/// Whether `c` is whitespace, as `char::is_whitespace` decides it.
pub(crate) fn is_whitespace(c: char) -> (b: bool)
    ensures
        b == char_is_whitespace(c),
{
    ('\u{9}' <= c && c <= '\u{d}') || c == ' ' || c == '\u{85}' || c == '\u{a0}' || c
        == '\u{1680}' || ('\u{2000}' <= c && c <= '\u{200a}') || c == '\u{2028}' || c
        == '\u{2029}' || c == '\u{202f}' || c == '\u{205f}' || c == '\u{3000}'
}

/// Calls `char::is_numeric`; the result is named `char_is_numeric(c)`. Among ASCII
/// characters exactly the digits `'0'..='9'` are numeric (the only ASCII characters in a
/// number category, Nd).
#[verifier::external_body]
pub(crate) fn is_numeric(c: char) -> (b: bool)
    ensures
        b == char_is_numeric(c),
        c <= '\u{7f}' ==> (b <==> ('0' <= c && c <= '9')),
{
    c.is_numeric()
}

/// Calls `char::is_alphanumeric`; the result is named `char_is_alphanumeric(c)`.
/// Among ASCII characters exactly the letters and the digits are alphanumeric (alphabetic
/// or numeric).
#[verifier::external_body]
pub(crate) fn is_alphanumeric(c: char) -> (b: bool)
    ensures
        b == char_is_alphanumeric(c),
        c <= '\u{7f}' ==> (b <==> (('0' <= c && c <= '9') || ('a' <= c && c <= 'z') || ('A' <= c
            && c <= 'Z'))),
{
    c.is_alphanumeric()
}

/// Calls `String::push`, which appends `c` to the end of `s`.
#[verifier::external_body]
pub(crate) fn push_char(s: &mut String, c: char)
    ensures
        final(s)@ == old(s)@.push(c),
{
    s.push(c)
}

/// The string made of the characters of `cs`, in order.
pub fn string_from_chars(cs: &[char]) -> (s: String)
    ensures
        s@ == cs@,
{
    let mut s = String::new();
    let mut i: usize = 0;
    while i < cs.len()
        invariant
            i <= cs@.len(),
            s@ == cs@.take(i as int),
        decreases cs@.len() - i,
    {
        push_char(&mut s, cs[i]);
        i = i + 1;
        assert(s@ =~= cs@.take(i as int));
    }
    assert(cs@.take(cs@.len() as int) =~= cs@);
    s
}

/// Whether the characters of `word` are exactly those of `lit`.
pub fn chars_equal_str(word: &[char], lit: &str) -> (b: bool)
    ensures
        b == (word@ == lit@),
{
    let n = lit.unicode_len();
    if word.len() != n {
        return false;
    }
    let mut i: usize = 0;
    while i < n
        invariant
            n == lit@.len(),
            word@.len() == n,
            i <= n,
            forall|j: int| 0 <= j < i ==> word@[j] == lit@[j],
        decreases n - i,
    {
        if word[i] != lit.get_char(i) {
            return false;
        }
        i = i + 1;
    }
    assert(word@ =~= lit@);
    true
}

} // verus!
