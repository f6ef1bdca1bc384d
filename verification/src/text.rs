//! Small helpers on strings: comparisons, conversions between text and
//! characters, and the few formatting steps that the rest of the crate needs.

use vstd::prelude::*;

verus! {

/// Lexicographic order on character sequences, by code point: a proper prefix
/// comes before any of its extensions.
pub open spec fn lex_le(a: Seq<char>, b: Seq<char>) -> bool
    decreases a.len(),
{
    if a.len() == 0 {
        true
    } else if b.len() == 0 {
        false
    } else if a[0] as u32 != b[0] as u32 {
        (a[0] as u32) < (b[0] as u32)
    } else {
        lex_le(a.skip(1), b.skip(1))
    }
}

/// What `{:?}` prints for a string: the text between double quotes, with the
/// characters that need it escaped.
pub uninterp spec fn debug_quoted(s: Seq<char>) -> Seq<char>;

/// What `str::trim` leaves of a text: the text without its leading and
/// trailing white space.
pub uninterp spec fn trimmed_text(s: Seq<char>) -> Seq<char>;

/// What `str::to_lowercase` makes of a text.
pub uninterp spec fn lowercase_text(s: Seq<char>) -> Seq<char>;

/// The text with every space replaced by an underscore.
pub open spec fn underscored(s: Seq<char>) -> Seq<char> {
    s.map_values(|c: char| if c == ' ' { '_' } else { c })
}

/// `str::trim`: the slice without leading and trailing white space.
#[verifier::external_body]
pub(crate) fn trimmed(s: &str) -> (t: &str)
    ensures
        t@ == trimmed_text(s@),
{
    s.trim()
}

/// `str::to_lowercase`: the lower-case equivalent of the slice.
#[verifier::external_body]
pub(crate) fn lowercased(s: &str) -> (t: String)
    ensures
        t@ == lowercase_text(s@),
{
    s.to_lowercase()
}

/// `String::push`: appends one character.
#[verifier::external_body]
pub(crate) fn push_char(s: &mut String, c: char)
    ensures
        final(s)@ == old(s)@.push(c),
{
    s.push(c)
}

/// The `Debug` rendering of a string, as `format!("{:?}", ..)` gives it.
#[verifier::external_body]
pub(crate) fn quoted(s: &str) -> (q: String)
    ensures
        q@ == debug_quoted(s@),
{
    format!("{:?}", s)
}

/// The characters of each string of a list.
pub open spec fn views(words: Seq<String>) -> Seq<Seq<char>> {
    words.map_values(|word: String| word@)
}

/// The characters of a string, in order.
pub fn chars_of(s: &str) -> (chars: Vec<char>)
    ensures
        chars@ == s@,
{
    let mut chars: Vec<char> = Vec::new();
    for c in it: s.chars()
        invariant
            it.seq() == s@,
            chars@ == s@.take(it.index() as int),
    {
        chars.push(c);
        assert(s@.take(it.index() + 1) == s@.take(it.index() as int).push(s@[it.index() as int]));
    }
    assert(s@.take(s@.len() as int) == s@);
    chars
}

/// Whether `a` comes before `b`, or is `b`, in the lexicographic order by
/// code point: the order in which strings compare.
pub fn text_le(a: &str, b: &str) -> (le: bool)
    ensures
        le == lex_le(a@, b@),
{
    let left = chars_of(a);
    let right = chars_of(b);
    let mut i: usize = 0;
    proof {
        assert(left@.skip(0) == left@);
        assert(right@.skip(0) == right@);
    }
    while i < left.len() && i < right.len()
        invariant
            left@ == a@,
            right@ == b@,
            i <= left@.len(),
            i <= right@.len(),
            lex_le(left@, right@) == lex_le(left@.skip(i as int), right@.skip(i as int)),
        decreases left@.len() - i,
    {
        let x: u32 = left[i] as u32;
        let y: u32 = right[i] as u32;
        proof {
            let rest = left@.skip(i as int);
            let other = right@.skip(i as int);
            assert(rest.len() > 0 && other.len() > 0);
            assert(rest[0] == left@[i as int]);
            assert(other[0] == right@[i as int]);
            assert(rest.skip(1) == left@.skip(i + 1));
            assert(other.skip(1) == right@.skip(i + 1));
            assert(lex_le(rest, other) == if x != y {
                x < y
            } else {
                lex_le(left@.skip(i + 1), right@.skip(i + 1))
            });
        }
        if x != y {
            return x < y;
        }
        i = i + 1;
    }
    proof {
        let rest = left@.skip(i as int);
        let other = right@.skip(i as int);
        assert(rest.len() == left@.len() - i);
        assert(other.len() == right@.len() - i);
        assert(lex_le(rest, other) == (rest.len() == 0));
    }
    i == left.len()
}

/// The string made of the given characters.
pub fn text_of(chars: &Vec<char>) -> (s: String)
    ensures
        s@ == chars@,
{
    let mut s = String::new();
    let mut i: usize = 0;
    while i < chars.len()
        invariant
            i <= chars@.len(),
            s@ == chars@.take(i as int),
        decreases chars@.len() - i,
    {
        push_char(&mut s, chars[i]);
        assert(chars@.take(i + 1) == chars@.take(i as int).push(chars@[i as int]));
        i = i + 1;
    }
    assert(chars@.take(chars@.len() as int) == chars@);
    s
}

/// The concatenation of two slices.
pub fn joined(head: &str, tail: &str) -> (s: String)
    ensures
        s@ == head@ + tail@,
{
    let mut s = head.to_string();
    s.append(tail);
    s
}

} // verus!
