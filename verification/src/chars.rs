//! Texts as sequences of characters, and what the standard library does to
//! them that is taken on trust here.

use vstd::prelude::*;
use vstd::std_specs::iter::IteratorSpec;

verus! {

/// The lowercase form of a text, as `str::to_lowercase` of the standard
/// library gives it. It is a function of the text alone: the mapping follows
/// the Unicode tables and no locale.
pub uninterp spec fn lowercase(text: Seq<char>) -> Seq<char>;

/// `String::push` appends the one character to the end of the string and
/// leaves what was there in place.
pub assume_specification[ String::push ](text: &mut String, c: char)
    ensures
        final(text)@ == old(text)@.push(c),
;

/// `str::to_lowercase` returns the lowercase form of the text. Nothing more
/// is claimed of it than that the result is named by [`lowercase`].
pub assume_specification[ str::to_lowercase ](text: &str) -> (lowered: String)
    ensures
        lowered@ == lowercase(text@),
;

/// The characters of `text`, in order.
pub fn chars_of(text: &str) -> (out: Vec<char>)
    ensures
        out@ == text@,
{
    let mut out: Vec<char> = Vec::new();
    for c in it: text.chars()
        invariant
            it.seq() == text@,
            out@ == it.seq().take(it.index() as int),
    {
        out.push(c);
        assert(it.seq().take(it.index() + 1) =~= it.seq().take(it.index() as int).push(c));
    }
    assert(text@.take(text@.len() as int) =~= text@);
    out
}

/// The text made of `chars`, in order.
pub fn string_of(chars: &Vec<char>) -> (text: String)
    ensures
        text@ == chars@,
{
    let mut text = String::new();
    let n = chars.len();
    let mut i: usize = 0;
    while i < n
        invariant
            i <= n,
            n == chars@.len(),
            text@ == chars@.take(i as int),
        decreases n - i,
    {
        text.push(chars[i]);
        assert(chars@.take(i + 1) =~= chars@.take(i as int).push(chars@[i as int]));
        i += 1;
    }
    assert(chars@.take(n as int) =~= chars@);
    text
}

} // verus!
