//! Rewriting a text by replacing every match of a pattern.
//!
//! A text is scanned from left to right. Where a match of the pattern begins
//! at the scanning position, the match is replaced and the scan goes on
//! after it; otherwise the character at that position is kept and the scan
//! moves one character on. Matches therefore never overlap, and of two that
//! could begin at different positions the left one wins.

use vstd::prelude::*;

verus! {

/// The patterns that the preprocessors look for.
pub enum Pattern {
    /// A run of whitespace characters, as long as it can be.
    WhitespaceRun,
    /// The given marker and everything after it up to the end of the line.
    /// The line break itself is not part of the match.
    LineComment(Seq<char>),
    /// From `/*` to the nearest `*/` after it, line breaks included. A `/*`
    /// with no `*/` after it is no match.
    BlockComment,
}

/// Whether `c` is a whitespace character: one with the Unicode property
/// `White_Space`.
pub open spec fn is_space(c: char) -> bool {
    ||| '\u{9}' <= c <= '\u{d}'
    ||| c == ' '
    ||| c == '\u{85}'
    ||| c == '\u{a0}'
    ||| c == '\u{1680}'
    ||| '\u{2000}' <= c <= '\u{200a}'
    ||| c == '\u{2028}'
    ||| c == '\u{2029}'
    ||| c == '\u{202f}'
    ||| c == '\u{205f}'
    ||| c == '\u{3000}'
}

/// The first position at or after `at` that holds no whitespace character;
/// the length of the text if there is none.
pub open spec fn run_end(text: Seq<char>, at: int) -> int
    decreases text.len() - at,
{
    if 0 <= at < text.len() && is_space(text[at]) {
        run_end(text, at + 1)
    } else {
        at
    }
}

/// The first position at or after `at` that holds a line break; the length
/// of the text if there is none.
pub open spec fn line_end(text: Seq<char>, at: int) -> int
    decreases text.len() - at,
{
    if 0 <= at < text.len() && text[at] != '\n' {
        line_end(text, at + 1)
    } else {
        at
    }
}

/// Whether `word` stands in `text` at position `at`.
pub open spec fn occurs_at(text: Seq<char>, word: Seq<char>, at: int) -> bool {
    &&& 0 <= at
    &&& at + word.len() <= text.len()
    &&& forall|k: int| 0 <= k < word.len() ==> text[at + k] == word[k]
}

/// The two characters that open a block comment.
pub open spec fn block_open() -> Seq<char> {
    seq!['/', '*']
}

/// The two characters that close a block comment.
pub open spec fn block_close() -> Seq<char> {
    seq!['*', '/']
}

/// The first position at or after `from` at which a block comment is
/// closed, if there is one.
pub open spec fn next_close(text: Seq<char>, from: int) -> Option<int>
    decreases text.len() - from,
{
    if from < 0 || from + 2 > text.len() {
        None
    } else if occurs_at(text, block_close(), from) {
        Some(from)
    } else {
        next_close(text, from + 1)
    }
}

/// Where the match of `pattern` that begins at position `at` of `text` ends
/// (the position after its last character), if one begins there.
pub open spec fn match_end(pattern: Pattern, text: Seq<char>, at: int) -> Option<int> {
    match pattern {
        Pattern::WhitespaceRun => if 0 <= at < text.len() && is_space(text[at]) {
            Some(run_end(text, at))
        } else {
            None
        },
        Pattern::LineComment(marker) => if occurs_at(text, marker, at) {
            Some(line_end(text, at + marker.len()))
        } else {
            None
        },
        Pattern::BlockComment => if occurs_at(text, block_open(), at) {
            match next_close(text, at + 2) {
                Some(close) => Some(close + 2),
                None => None,
            }
        } else {
            None
        },
    }
}

/// Whether a match of `pattern` that is not empty begins at position `at`.
pub open spec fn matches_at(pattern: Pattern, text: Seq<char>, at: int) -> bool {
    match match_end(pattern, text, at) {
        Some(end) => at < end <= text.len(),
        None => false,
    }
}

/// What is left of `text` from position `at` on once every match of
/// `pattern` has been replaced by `replacement`.
pub open spec fn replace_from(
    text: Seq<char>,
    at: int,
    pattern: Pattern,
    replacement: Seq<char>,
) -> Seq<char>
    decreases text.len() - at,
{
    if at < 0 || at >= text.len() {
        Seq::empty()
    } else if matches_at(pattern, text, at) {
        replacement + replace_from(text, match_end(pattern, text, at)->0, pattern, replacement)
    } else {
        seq![text[at]] + replace_from(text, at + 1, pattern, replacement)
    }
}

/// `text` with every match of `pattern` replaced by `replacement`.
pub open spec fn replace_all(text: Seq<char>, pattern: Pattern, replacement: Seq<char>) -> Seq<
    char,
> {
    replace_from(text, 0, pattern, replacement)
}

/// `text` with every run of whitespace replaced by one space.
pub open spec fn collapsed(text: Seq<char>) -> Seq<char> {
    replace_all(text, Pattern::WhitespaceRun, seq![' '])
}

/// `text` without its line comments that begin with `marker`.
pub open spec fn without_line_comments(text: Seq<char>, marker: Seq<char>) -> Seq<char> {
    replace_all(text, Pattern::LineComment(marker), Seq::empty())
}

/// `text` without its block comments.
pub open spec fn without_block_comments(text: Seq<char>) -> Seq<char> {
    replace_all(text, Pattern::BlockComment, Seq::empty())
}

/// Whether `c` is a whitespace character.
pub fn is_whitespace(c: char) -> (b: bool)
    ensures
        b == is_space(c),
{
    ('\u{9}' <= c && c <= '\u{d}') || c == ' ' || c == '\u{85}' || c == '\u{a0}' || c
        == '\u{1680}' || ('\u{2000}' <= c && c <= '\u{200a}') || c == '\u{2028}' || c
        == '\u{2029}' || c == '\u{202f}' || c == '\u{205f}' || c == '\u{3000}'
}

/// Replaces every run of whitespace in `text` by one space.
pub fn collapse_whitespace(text: &Vec<char>) -> (out: Vec<char>)
    ensures
        out@ == collapsed(text@),
{
    let ghost space = seq![' '];
    let n = text.len();
    let mut out: Vec<char> = Vec::new();
    let mut i: usize = 0;
    while i < n
        invariant
            i <= n,
            n == text@.len(),
            space == seq![' '],
            out@ + replace_from(text@, i as int, Pattern::WhitespaceRun, space) == collapsed(
                text@,
            ),
        decreases n - i,
    {
        let ghost before = out@;
        if is_whitespace(text[i]) {
            let mut end: usize = i + 1;
            while end < n && is_whitespace(text[end])
                invariant
                    i < end <= n,
                    n == text@.len(),
                    run_end(text@, i as int) == run_end(text@, end as int),
                decreases n - end,
            {
                end += 1;
            }
            out.push(' ');
            proof {
                let rest = replace_from(text@, end as int, Pattern::WhitespaceRun, space);
                assert(out@ + rest =~= before + (space + rest));
            }
            i = end;
        } else {
            out.push(text[i]);
            proof {
                let rest = replace_from(text@, i + 1, Pattern::WhitespaceRun, space);
                assert(out@ + rest =~= before + (seq![text@[i as int]] + rest));
            }
            i += 1;
        }
    }
    assert(out@ + Seq::<char>::empty() =~= out@);
    out
}

/// Whether `word` stands in `text` at position `at`.
pub fn occurs(text: &Vec<char>, word: &Vec<char>, at: usize) -> (b: bool)
    ensures
        b == occurs_at(text@, word@, at as int),
{
    let n = text.len();
    let w = word.len();
    if at > n || w > n - at {
        return false;
    }
    let mut k: usize = 0;
    while k < w
        invariant
            k <= w,
            w == word@.len(),
            n == text@.len(),
            at + w <= n,
            forall|j: int| 0 <= j < k ==> text@[at + j] == word@[j],
        decreases w - k,
    {
        if text[at + k] != word[k] {
            return false;
        }
        k += 1;
    }
    true
}

/// Removes from `text` every line comment that begins with `marker`: the
/// marker and what follows it on its line. The line break stays.
pub fn strip_line_comments(text: &Vec<char>, marker: &Vec<char>) -> (out: Vec<char>)
    ensures
        out@ == without_line_comments(text@, marker@),
{
    let ghost pattern = Pattern::LineComment(marker@);
    let ghost nothing = Seq::<char>::empty();
    let n = text.len();
    let mut out: Vec<char> = Vec::new();
    let mut i: usize = 0;
    while i < n
        invariant
            i <= n,
            n == text@.len(),
            pattern == Pattern::LineComment(marker@),
            nothing == Seq::<char>::empty(),
            out@ + replace_from(text@, i as int, pattern, nothing) == without_line_comments(
                text@,
                marker@,
            ),
        decreases n - i,
    {
        let ghost before = out@;
        let mut end: usize = i;
        if occurs(text, marker, i) {
            end = i + marker.len();
            while end < n && text[end] != '\n'
                invariant
                    i + marker@.len() <= end <= n,
                    n == text@.len(),
                    line_end(text@, i + marker@.len()) == line_end(text@, end as int),
                decreases n - end,
            {
                end += 1;
            }
        }
        if end > i {
            proof {
                let rest = replace_from(text@, end as int, pattern, nothing);
                assert(out@ + rest =~= before + (nothing + rest));
            }
            i = end;
        } else {
            out.push(text[i]);
            proof {
                let rest = replace_from(text@, i + 1, pattern, nothing);
                assert(out@ + rest =~= before + (seq![text@[i as int]] + rest));
            }
            i += 1;
        }
    }
    assert(out@ + nothing =~= out@);
    out
}

/// Where no block comment is closed at or after a position, none is closed
/// after any later position either.
proof fn lemma_no_close_later(text: Seq<char>, from: int, later: int)
    requires
        0 <= from <= later,
        next_close(text, from) is None,
    ensures
        next_close(text, later) is None,
    decreases later - from,
{
    if from < later && from + 2 <= text.len() {
        lemma_no_close_later(text, from + 1, later);
    }
}

/// Removes from `text` every block comment: from `/*` to the nearest `*/`
/// after it. A `/*` that is never closed stays, with all that follows it.
pub fn strip_block_comments(text: &Vec<char>) -> (out: Vec<char>)
    ensures
        out@ == without_block_comments(text@),
{
    let ghost pattern = Pattern::BlockComment;
    let ghost nothing = Seq::<char>::empty();
    let n = text.len();
    let mut out: Vec<char> = Vec::new();
    let mut open_ended = false;
    let mut i: usize = 0;
    while i < n
        invariant
            i <= n,
            n == text@.len(),
            pattern == Pattern::BlockComment,
            nothing == Seq::<char>::empty(),
            open_ended ==> next_close(text@, i + 2) is None,
            out@ + replace_from(text@, i as int, pattern, nothing) == without_block_comments(
                text@,
            ),
        decreases n - i,
    {
        let ghost before = out@;
        let mut end: usize = i;
        if !open_ended && n - i >= 2 && text[i] == '/' && text[i + 1] == '*' {
            let mut close: usize = i + 2;
            while n - close >= 2 && !(text[close] == '*' && text[close + 1] == '/')
                invariant
                    i + 2 <= close <= n,
                    n == text@.len(),
                    next_close(text@, i + 2) == next_close(text@, close as int),
                decreases n - close,
            {
                close += 1;
            }
            if n - close >= 2 {
                end = close + 2;
            } else {
                open_ended = true;
            }
        }
        if end > i {
            proof {
                let rest = replace_from(text@, end as int, pattern, nothing);
                assert(out@ + rest =~= before + (nothing + rest));
            }
            i = end;
        } else {
            out.push(text[i]);
            proof {
                if open_ended {
                    lemma_no_close_later(text@, i + 2, i + 3);
                }
                let rest = replace_from(text@, i + 1, pattern, nothing);
                assert(out@ + rest =~= before + (seq![text@[i as int]] + rest));
            }
            i += 1;
        }
    }
    assert(out@ + nothing =~= out@);
    out
}

proof fn lemma_run_end_bounds(text: Seq<char>, at: int)
    requires
        0 <= at <= text.len(),
    ensures
        at <= run_end(text, at) <= text.len(),
        run_end(text, at) < text.len() ==> !is_space(text[run_end(text, at)]),
        at < text.len() && is_space(text[at]) ==> at < run_end(text, at),
    decreases text.len() - at,
{
    if at < text.len() && is_space(text[at]) {
        lemma_run_end_bounds(text, at + 1);
    }
}

proof fn lemma_line_end_bounds(text: Seq<char>, at: int)
    requires
        0 <= at <= text.len(),
    ensures
        at <= line_end(text, at) <= text.len(),
    decreases text.len() - at,
{
    if at < text.len() && text[at] != '\n' {
        lemma_line_end_bounds(text, at + 1);
    }
}

proof fn lemma_next_close_bounds(text: Seq<char>, from: int)
    requires
        0 <= from,
    ensures
        next_close(text, from) matches Some(close) ==> from <= close && close + 2
            <= text.len() && occurs_at(text, block_close(), close),
    decreases text.len() - from,
{
    if from + 2 <= text.len() && !occurs_at(text, block_close(), from) {
        lemma_next_close_bounds(text, from + 1);
    }
}

/// A match is never empty and never reaches beyond the text, so wherever a
/// match begins it is replaced. (A line comment needs a marker for that: an
/// empty marker would match nothing at the end of a line.)
pub proof fn lemma_match_has_extent(pattern: Pattern, text: Seq<char>, at: int)
    requires
        match_end(pattern, text, at) is Some,
        pattern matches Pattern::LineComment(marker) ==> marker.len() > 0,
    ensures
        matches_at(pattern, text, at),
{
    match pattern {
        Pattern::WhitespaceRun => {
            lemma_run_end_bounds(text, at);
        },
        Pattern::LineComment(marker) => {
            lemma_line_end_bounds(text, at + marker.len());
        },
        Pattern::BlockComment => {
            lemma_next_close_bounds(text, at + 2);
        },
    }
}

/// Whether no match of `pattern` begins anywhere in `text`.
pub open spec fn free_of(text: Seq<char>, pattern: Pattern) -> bool {
    forall|at: int| 0 <= at < text.len() ==> !matches_at(pattern, text, at)
}

proof fn lemma_replace_from_without_match(
    text: Seq<char>,
    at: int,
    pattern: Pattern,
    replacement: Seq<char>,
)
    requires
        0 <= at <= text.len(),
        free_of(text, pattern),
    ensures
        replace_from(text, at, pattern, replacement) == text.skip(at),
    decreases text.len() - at,
{
    if at < text.len() {
        lemma_replace_from_without_match(text, at + 1, pattern, replacement);
        assert(text.skip(at) =~= seq![text[at]] + text.skip(at + 1));
    } else {
        assert(text.skip(at) =~= Seq::<char>::empty());
    }
}

/// Only matches are replaced: a text in which no match begins stays as it is.
pub proof fn lemma_replace_all_without_match(
    text: Seq<char>,
    pattern: Pattern,
    replacement: Seq<char>,
)
    requires
        free_of(text, pattern),
    ensures
        replace_all(text, pattern, replacement) == text,
{
    lemma_replace_from_without_match(text, 0, pattern, replacement);
    assert(text.skip(0) =~= text);
}

/// A text that does not hold the first character of the marker has no line
/// comment, and stays as it is.
pub proof fn lemma_without_marker_no_line_comment(text: Seq<char>, marker: Seq<char>)
    requires
        marker.len() > 0,
        !text.contains(marker[0]),
    ensures
        without_line_comments(text, marker) == text,
{
    let pattern = Pattern::LineComment(marker);
    assert forall|at: int| 0 <= at < text.len() implies !matches_at(pattern, text, at) by {
        if occurs_at(text, marker, at) {
            assert(text[at + 0] == marker[0]);
            assert(text.contains(text[at]));
        }
    }
    lemma_replace_all_without_match(text, pattern, Seq::empty());
}

/// A text without a slash has no block comment, and stays as it is.
pub proof fn lemma_without_slash_no_block_comment(text: Seq<char>)
    requires
        !text.contains('/'),
    ensures
        without_block_comments(text) == text,
{
    let pattern = Pattern::BlockComment;
    assert forall|at: int| 0 <= at < text.len() implies !matches_at(pattern, text, at) by {
        if occurs_at(text, block_open(), at) {
            assert(text[at + 0] == block_open()[0]);
            assert(text.contains(text[at]));
        }
    }
    lemma_replace_all_without_match(text, pattern, Seq::empty());
}

/// Whether a text is tidy: its only whitespace characters are single spaces,
/// no two of them side by side.
pub open spec fn tidy(text: Seq<char>) -> bool {
    forall|i: int|
        0 <= i < text.len() && is_space(#[trigger] text[i]) ==> text[i] == ' ' && (i + 1
            < text.len() ==> !is_space(text[i + 1]))
}

proof fn lemma_collapsed_from_is_tidy(text: Seq<char>, at: int)
    requires
        0 <= at <= text.len(),
    ensures
        tidy(replace_from(text, at, Pattern::WhitespaceRun, seq![' '])),
        at < text.len() ==> replace_from(text, at, Pattern::WhitespaceRun, seq![' ']).len() > 0,
        at < text.len() && !is_space(text[at]) ==> replace_from(
            text,
            at,
            Pattern::WhitespaceRun,
            seq![' '],
        )[0] == text[at],
    decreases text.len() - at,
{
    let pattern = Pattern::WhitespaceRun;
    let space = seq![' '];
    let all = replace_from(text, at, pattern, space);
    if at < text.len() {
        lemma_run_end_bounds(text, at);
        let next = if is_space(text[at]) {
            run_end(text, at)
        } else {
            at + 1
        };
        let first = if is_space(text[at]) {
            ' '
        } else {
            text[at]
        };
        lemma_collapsed_from_is_tidy(text, next);
        let rest = replace_from(text, next, pattern, space);
        assert(all =~= seq![first] + rest);
        assert forall|i: int| 0 <= i < all.len() && is_space(#[trigger] all[i]) implies all[i]
            == ' ' && (i + 1 < all.len() ==> !is_space(all[i + 1])) by {
            if i > 0 {
                assert(all[i] == rest[i - 1]);
                if i + 1 < all.len() {
                    assert(all[i + 1] == rest[i]);
                }
            } else if i + 1 < all.len() {
                assert(all[1] == rest[0]);
            }
        }
    }
}

/// Once the whitespace is collapsed, the only whitespace left is single
/// spaces: every run has become one space.
pub proof fn lemma_collapsed_is_tidy(text: Seq<char>)
    ensures
        tidy(collapsed(text)),
{
    lemma_collapsed_from_is_tidy(text, 0);
}

proof fn lemma_marker_character_gone_from(text: Seq<char>, at: int, marker: char)
    requires
        0 <= at <= text.len(),
    ensures
        !replace_from(text, at, Pattern::LineComment(seq![marker]), Seq::empty()).contains(
            marker,
        ),
    decreases text.len() - at,
{
    let pattern = Pattern::LineComment(seq![marker]);
    let nothing = Seq::<char>::empty();
    let all = replace_from(text, at, pattern, nothing);
    if at < text.len() {
        lemma_line_end_bounds(text, at + 1);
        if matches_at(pattern, text, at) {
            let end = match_end(pattern, text, at)->0;
            lemma_marker_character_gone_from(text, end, marker);
            assert(all =~= replace_from(text, end, pattern, nothing));
        } else {
            assert(text[at] != marker) by {
                if text[at] == marker {
                    assert(occurs_at(text, seq![marker], at));
                }
            }
            lemma_marker_character_gone_from(text, at + 1, marker);
            let rest = replace_from(text, at + 1, pattern, nothing);
            assert(all =~= seq![text[at]] + rest);
            assert forall|i: int| 0 <= i < all.len() implies all[i] != marker by {
                if i > 0 {
                    assert(all[i] == rest[i - 1]);
                    assert(rest.contains(rest[i - 1]));
                }
            }
        }
    }
}

/// Where the marker is one character, none of it is left once the line
/// comments are gone.
pub proof fn lemma_marker_character_gone(text: Seq<char>, marker: char)
    ensures
        !without_line_comments(text, seq![marker]).contains(marker),
{
    lemma_marker_character_gone_from(text, 0, marker);
}

} // verus!
