//! Edit distance between two texts and the similarity score derived from it.

use crate::chars::chars_of;
use vstd::prelude::*;

verus! {

/// The smallest of three numbers.
pub open spec fn min3(x: nat, y: nat, z: nat) -> nat {
    if x <= y && x <= z {
        x
    } else if y <= z {
        y
    } else {
        z
    }
}

/// What replacing `x` by `y` costs: nothing where they are the same character.
pub open spec fn substitution_cost(x: char, y: char) -> nat {
    if x == y {
        0
    } else {
        1
    }
}

/// The edit distance between `a` and `b`: the least number of insertions,
/// deletions and substitutions of one character each that turn `a` into `b`.
///
/// An empty text is as far from the other as the other is long. Otherwise the
/// last characters are either matched with each other (at the cost of a
/// substitution where they differ), or one of them is deleted or inserted.
/// That this is the least cost of any edit script is shown by
/// [`lemma_distance_is_least`] and [`lemma_distance_is_reached`].
pub open spec fn edit_distance(a: Seq<char>, b: Seq<char>) -> nat
    decreases a.len() + b.len(),
{
    if a.len() == 0 {
        b.len()
    } else if b.len() == 0 {
        a.len()
    } else {
        min3(
            edit_distance(a.drop_last(), b) + 1,
            edit_distance(a, b.drop_last()) + 1,
            edit_distance(a.drop_last(), b.drop_last()) + substitution_cost(a.last(), b.last()),
        )
    }
}

/// The length of the longer of two texts.
pub open spec fn longer_len(a: Seq<char>, b: Seq<char>) -> nat {
    if a.len() >= b.len() {
        a.len()
    } else {
        b.len()
    }
}

/// A text is at distance zero from itself.
pub proof fn lemma_distance_to_self(a: Seq<char>)
    ensures
        edit_distance(a, a) == 0,
    decreases a.len(),
{
    if a.len() > 0 {
        lemma_distance_to_self(a.drop_last());
    }
}

/// The edit distance does not depend on the order of the two texts.
pub proof fn lemma_distance_symmetric(a: Seq<char>, b: Seq<char>)
    ensures
        edit_distance(a, b) == edit_distance(b, a),
    decreases a.len() + b.len(),
{
    if a.len() > 0 && b.len() > 0 {
        lemma_distance_symmetric(a.drop_last(), b);
        lemma_distance_symmetric(a, b.drop_last());
        lemma_distance_symmetric(a.drop_last(), b.drop_last());
    }
}

/// The edit distance never exceeds the length of the longer text.
pub proof fn lemma_distance_at_most_longer(a: Seq<char>, b: Seq<char>)
    ensures
        edit_distance(a, b) <= longer_len(a, b),
    decreases a.len() + b.len(),
{
    if a.len() > 0 && b.len() > 0 {
        lemma_distance_at_most_longer(a.drop_last(), b.drop_last());
    }
}

/// The edit distance is at least the difference of the two lengths.
pub proof fn lemma_distance_at_least_length_gap(a: Seq<char>, b: Seq<char>)
    ensures
        a.len() - b.len() <= edit_distance(a, b),
        b.len() - a.len() <= edit_distance(a, b),
    decreases a.len() + b.len(),
{
    if a.len() > 0 && b.len() > 0 {
        lemma_distance_at_least_length_gap(a.drop_last(), b);
        lemma_distance_at_least_length_gap(a, b.drop_last());
        lemma_distance_at_least_length_gap(a.drop_last(), b.drop_last());
    }
}

/// Only equal texts are at distance zero.
pub proof fn lemma_distance_zero_means_equal(a: Seq<char>, b: Seq<char>)
    requires
        edit_distance(a, b) == 0,
    ensures
        a == b,
    decreases a.len() + b.len(),
{
    if a.len() > 0 && b.len() > 0 {
        lemma_distance_zero_means_equal(a.drop_last(), b.drop_last());
        assert(a =~= a.drop_last().push(a.last()));
        assert(b =~= b.drop_last().push(b.last()));
    } else {
        assert(a =~= b);
    }
}

/// One step of an edit script. A script is read from its end, against the
/// ends of the two texts.
pub enum Edit {
    /// The two last characters are the same and stay.
    Keep,
    /// The last character of the first text is replaced by that of the second.
    Substitute,
    /// The last character of the second text is inserted.
    Insert,
    /// The last character of the first text is deleted.
    Delete,
}

/// Whether `script` turns `a` into `b`.
pub open spec fn transforms(script: Seq<Edit>, a: Seq<char>, b: Seq<char>) -> bool
    decreases script.len(),
{
    if script.len() == 0 {
        a.len() == 0 && b.len() == 0
    } else {
        let before = script.drop_last();
        match script.last() {
            Edit::Keep => a.len() > 0 && b.len() > 0 && a.last() == b.last() && transforms(
                before,
                a.drop_last(),
                b.drop_last(),
            ),
            Edit::Substitute => a.len() > 0 && b.len() > 0 && transforms(
                before,
                a.drop_last(),
                b.drop_last(),
            ),
            Edit::Insert => b.len() > 0 && transforms(before, a, b.drop_last()),
            Edit::Delete => a.len() > 0 && transforms(before, a.drop_last(), b),
        }
    }
}

/// The number of insertions, deletions and substitutions in `script`.
pub open spec fn cost(script: Seq<Edit>) -> nat
    decreases script.len(),
{
    if script.len() == 0 {
        0
    } else if script.last() is Keep {
        cost(script.drop_last())
    } else {
        cost(script.drop_last()) + 1
    }
}

/// A script that turns `a` into `b` with as few edits as the edit distance
/// counts.
pub open spec fn shortest_script(a: Seq<char>, b: Seq<char>) -> Seq<Edit>
    decreases a.len() + b.len(),
{
    if a.len() == 0 && b.len() == 0 {
        Seq::empty()
    } else if a.len() == 0 {
        shortest_script(a, b.drop_last()).push(Edit::Insert)
    } else if b.len() == 0 {
        shortest_script(a.drop_last(), b).push(Edit::Delete)
    } else if edit_distance(a, b) == edit_distance(a.drop_last(), b) + 1 {
        shortest_script(a.drop_last(), b).push(Edit::Delete)
    } else if edit_distance(a, b) == edit_distance(a, b.drop_last()) + 1 {
        shortest_script(a, b.drop_last()).push(Edit::Insert)
    } else if a.last() == b.last() {
        shortest_script(a.drop_last(), b.drop_last()).push(Edit::Keep)
    } else {
        shortest_script(a.drop_last(), b.drop_last()).push(Edit::Substitute)
    }
}

/// No script that turns `a` into `b` has fewer edits than the edit distance.
pub proof fn lemma_distance_is_least(script: Seq<Edit>, a: Seq<char>, b: Seq<char>)
    requires
        transforms(script, a, b),
    ensures
        edit_distance(a, b) <= cost(script),
    decreases script.len(),
{
    if script.len() > 0 {
        let before = script.drop_last();
        match script.last() {
            Edit::Keep => lemma_distance_is_least(before, a.drop_last(), b.drop_last()),
            Edit::Substitute => lemma_distance_is_least(before, a.drop_last(), b.drop_last()),
            Edit::Insert => lemma_distance_is_least(before, a, b.drop_last()),
            Edit::Delete => lemma_distance_is_least(before, a.drop_last(), b),
        }
    }
}

/// Some script turns `a` into `b` with exactly as many edits as the edit
/// distance.
pub proof fn lemma_distance_is_reached(a: Seq<char>, b: Seq<char>)
    ensures
        transforms(shortest_script(a, b), a, b),
        cost(shortest_script(a, b)) == edit_distance(a, b),
    decreases a.len() + b.len(),
{
    let script = shortest_script(a, b);
    if a.len() == 0 && b.len() == 0 {
    } else if a.len() == 0 {
        lemma_distance_is_reached(a, b.drop_last());
        assert(script.drop_last() =~= shortest_script(a, b.drop_last()));
    } else if b.len() == 0 {
        lemma_distance_is_reached(a.drop_last(), b);
        assert(script.drop_last() =~= shortest_script(a.drop_last(), b));
    } else if edit_distance(a, b) == edit_distance(a.drop_last(), b) + 1 {
        lemma_distance_is_reached(a.drop_last(), b);
        assert(script.drop_last() =~= shortest_script(a.drop_last(), b));
    } else if edit_distance(a, b) == edit_distance(a, b.drop_last()) + 1 {
        lemma_distance_is_reached(a, b.drop_last());
        assert(script.drop_last() =~= shortest_script(a, b.drop_last()));
    } else {
        lemma_distance_is_reached(a.drop_last(), b.drop_last());
        assert(script.drop_last() =~= shortest_script(a.drop_last(), b.drop_last()));
    }
}

/// The distance between the first `i` characters of `a` and the first `j` of `b`.
pub open spec fn prefix_distance(a: Seq<char>, b: Seq<char>, i: int, j: int) -> nat {
    edit_distance(a.take(i), b.take(j))
}

proof fn lemma_prefix_distance_edge(a: Seq<char>, b: Seq<char>, i: int, j: int)
    requires
        0 <= i <= a.len(),
        0 <= j <= b.len(),
    ensures
        prefix_distance(a, b, 0, j) == j,
        prefix_distance(a, b, i, 0) == i,
        prefix_distance(a, b, i, j) <= if i >= j { i } else { j },
{
    lemma_distance_at_most_longer(a.take(i), b.take(j));
}

proof fn lemma_prefix_distance_step(a: Seq<char>, b: Seq<char>, i: int, j: int)
    requires
        0 <= i < a.len(),
        0 <= j < b.len(),
    ensures
        prefix_distance(a, b, i + 1, j + 1) == min3(
            prefix_distance(a, b, i, j + 1) + 1,
            prefix_distance(a, b, i + 1, j) + 1,
            prefix_distance(a, b, i, j) + substitution_cost(a[i], b[j]),
        ),
{
    assert(a.take(i + 1).drop_last() =~= a.take(i));
    assert(b.take(j + 1).drop_last() =~= b.take(j));
}

/// Fills the table of prefix distances row by row, keeping one row, and
/// returns its last cell.
fn distance_by_rows(a: &Vec<char>, b: &Vec<char>) -> (d: usize)
    ensures
        d == edit_distance(a@, b@),
{
    let m = a.len();
    let n = b.len();
    let mut row: Vec<usize> = Vec::new();
    let mut k: usize = 0;
    while k < n
        invariant
            k <= n,
            n == b@.len(),
            row@.len() == k,
            forall|c: int| 0 <= c < k ==> row@[c] == prefix_distance(a@, b@, 0, c),
        decreases n - k,
    {
        proof {
            lemma_prefix_distance_edge(a@, b@, 0, k as int);
        }
        row.push(k);
        k += 1;
    }
    proof {
        lemma_prefix_distance_edge(a@, b@, 0, n as int);
    }
    row.push(n);
    let mut i: usize = 0;
    while i < m
        invariant
            i <= m,
            m == a@.len(),
            n == b@.len(),
            row@.len() == n + 1,
            forall|c: int| 0 <= c <= n ==> row@[c] == prefix_distance(a@, b@, i as int, c),
        decreases m - i,
    {
        let mut diagonal: usize = row[0];
        proof {
            lemma_prefix_distance_edge(a@, b@, i as int, 0);
            lemma_prefix_distance_edge(a@, b@, i + 1, 0);
        }
        row.set(0, i + 1);
        let mut j: usize = 0;
        while j < n
            invariant
                i < m,
                j <= n,
                m == a@.len(),
                n == b@.len(),
                row@.len() == n + 1,
                diagonal == prefix_distance(a@, b@, i as int, j as int),
                forall|c: int| 0 <= c <= j ==> row@[c] == prefix_distance(a@, b@, i + 1, c),
                forall|c: int| j < c <= n ==> row@[c] == prefix_distance(a@, b@, i as int, c),
            decreases n - j,
        {
            proof {
                lemma_prefix_distance_edge(a@, b@, i as int, j as int);
                lemma_prefix_distance_step(a@, b@, i as int, j as int);
            }
            let above: usize = row[j + 1];
            let left: usize = row[j];
            let mut best: usize = if a[i] == b[j] {
                diagonal
            } else {
                diagonal + 1
            };
            if above < best {
                best = above + 1;
            }
            if left < best {
                best = left + 1;
            }
            row.set(j + 1, best);
            diagonal = above;
            j += 1;
        }
        i += 1;
    }
    proof {
        assert(a@.take(a@.len() as int) =~= a@);
        assert(b@.take(b@.len() as int) =~= b@);
    }
    row[n]
}

/// The edit distance between two texts, each given as its characters.
///
/// The table row is as long as the shorter text.
pub fn distance(a: &Vec<char>, b: &Vec<char>) -> (d: usize)
    ensures
        d == edit_distance(a@, b@),
        d <= longer_len(a@, b@),
{
    proof {
        lemma_distance_at_most_longer(a@, b@);
    }
    if b.len() <= a.len() {
        distance_by_rows(a, b)
    } else {
        proof {
            lemma_distance_symmetric(a@, b@);
        }
        distance_by_rows(b, a)
    }
}

/// A similarity score as a mathematical value: the fraction of the longer
/// text that no edit touches.
pub struct ScoreView {
    /// The edit distance between the two texts.
    pub distance: nat,
    /// The length of the longer text.
    pub longest: nat,
}

impl ScoreView {
    /// The numerator of the score. Two empty texts score one.
    pub open spec fn numerator(self) -> nat {
        if self.longest == 0 {
            1
        } else if self.distance >= self.longest {
            0
        } else {
            (self.longest - self.distance) as nat
        }
    }

    /// The denominator of the score.
    pub open spec fn denominator(self) -> nat {
        if self.longest == 0 {
            1
        } else {
            self.longest
        }
    }

    /// Whether the score is one.
    pub open spec fn is_one(self) -> bool {
        self.numerator() == self.denominator()
    }

    /// Whether the score is zero.
    pub open spec fn is_zero(self) -> bool {
        self.numerator() == 0
    }

    /// Whether the score is at least `numerator / denominator`.
    pub open spec fn reaches(self, numerator: nat, denominator: nat) -> bool {
        self.numerator() * denominator >= numerator * self.denominator()
    }
}

/// The similarity of two texts: one minus their edit distance over the length
/// of the longer text, and one where both are empty.
pub open spec fn similarity_of(a: Seq<char>, b: Seq<char>) -> ScoreView {
    ScoreView { distance: edit_distance(a, b), longest: longer_len(a, b) }
}

/// A text is as similar to itself as can be: the score is one.
pub proof fn lemma_similarity_to_self(a: Seq<char>)
    ensures
        similarity_of(a, a).is_one(),
{
    lemma_distance_to_self(a);
}

/// The similarity of two texts does not depend on their order.
pub proof fn lemma_similarity_symmetric(a: Seq<char>, b: Seq<char>)
    ensures
        similarity_of(a, b) == similarity_of(b, a),
{
    lemma_distance_symmetric(a, b);
}

/// A similarity lies between zero and one.
pub proof fn lemma_similarity_bounds(a: Seq<char>, b: Seq<char>)
    ensures
        similarity_of(a, b).distance <= similarity_of(a, b).longest,
        0 <= similarity_of(a, b).numerator() <= similarity_of(a, b).denominator(),
        similarity_of(a, b).denominator() > 0,
{
    lemma_distance_at_most_longer(a, b);
}

/// The score is one for equal texts and for no others.
pub proof fn lemma_similarity_one_means_equal(a: Seq<char>, b: Seq<char>)
    ensures
        similarity_of(a, b).is_one() <==> a == b,
{
    lemma_distance_at_most_longer(a, b);
    if a == b {
        lemma_distance_to_self(a);
    }
    if similarity_of(a, b).is_one() {
        if longer_len(a, b) == 0 {
            assert(a =~= b);
        } else {
            lemma_distance_zero_means_equal(a, b);
        }
    }
}

/// Against an empty text, a text that is not empty scores zero.
pub proof fn lemma_similarity_to_empty(a: Seq<char>)
    requires
        a.len() > 0,
    ensures
        similarity_of(Seq::empty(), a).is_zero(),
        similarity_of(a, Seq::empty()).is_zero(),
{
}

/// How similar two texts are: their edit distance, held against the length
/// of the longer one. The score is `1 - distance / longest`, and one where
/// both texts are empty.
#[derive(Clone, Copy, Debug, PartialEq, Eq, Structural)]
pub struct Score {
    /// The edit distance between the two texts.
    pub distance: usize,
    /// The length of the longer text, in characters.
    pub longest: usize,
}

impl View for Score {
    type V = ScoreView;

    open spec fn view(&self) -> ScoreView {
        ScoreView { distance: self.distance as nat, longest: self.longest as nat }
    }
}

impl Score {
    /// A score is well formed when the distance does not exceed the length
    /// that it is held against.
    pub open spec fn wf(&self) -> bool {
        self.distance <= self.longest
    }

    /// Whether the score is one: the two texts are equal.
    pub fn is_one(&self) -> (b: bool)
        ensures
            b == self@.is_one(),
    {
        self.distance == 0 || self.longest == 0
    }

    /// Whether the score is at least `numerator / denominator`, decided
    /// without rounding.
    pub fn at_least(&self, numerator: u64, denominator: u64) -> (b: bool)
        ensures
            b == self@.reaches(numerator as nat, denominator as nat),
    {
        let kept: usize = if self.longest == 0 {
            1
        } else if self.distance >= self.longest {
            0
        } else {
            self.longest - self.distance
        };
        let whole: usize = if self.longest == 0 {
            1
        } else {
            self.longest
        };
        assert(kept * denominator <= 0xffff_ffff_ffff_ffff * 0xffff_ffff_ffff_ffff)
            by (nonlinear_arith)
            requires
                kept <= 0xffff_ffff_ffff_ffff,
                denominator <= 0xffff_ffff_ffff_ffff,
        ;
        assert(numerator * whole <= 0xffff_ffff_ffff_ffff * 0xffff_ffff_ffff_ffff)
            by (nonlinear_arith)
            requires
                whole <= 0xffff_ffff_ffff_ffff,
                numerator <= 0xffff_ffff_ffff_ffff,
        ;
        (kept as u128) * (denominator as u128) >= (numerator as u128) * (whole as u128)
    }
}

/// The similarity of two texts, each given as its characters.
pub fn score(a: &Vec<char>, b: &Vec<char>) -> (score: Score)
    ensures
        score@ == similarity_of(a@, b@),
        score.wf(),
{
    let distance = distance(a, b);
    let longest = if a.len() >= b.len() {
        a.len()
    } else {
        b.len()
    };
    Score { distance, longest }
}

/// The similarity of `a` and `b`.
pub fn similarity(a: &str, b: &str) -> (score: Score)
    ensures
        score@ == similarity_of(a@, b@),
        score.wf(),
{
    let a_chars = chars_of(a);
    let b_chars = chars_of(b);
    score(&a_chars, &b_chars)
}

} // verus!
