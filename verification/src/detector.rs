//! The detector: one source document is set against each of the targets,
//! and every target gets an outcome of its own.
//!
//! The library reads no files. A caller hands it each file as a
//! [`Document`]: the path, and what reading it gave. It may hand them over
//! all at once ([`detect`], [`Resava`]), or parse the source into a
//! [`Reference`] first and then have one target judged after the other.

use crate::preprocessors::{normal_form_of, Preprocessor};
use crate::chars::chars_of;
use crate::similarity::{score, similarity_of, Score, ScoreView};
use vstd::prelude::*;

verus! {

/// `std::io::Error`, the error that reading a file ends in. Nothing is known
/// of its content here: it is handed on as it came.
#[verifier::external_type_specification]
#[verifier::external_body]
pub struct ExIoError(std::io::Error);

/// What can go wrong in a detection.
#[derive(Debug)]
pub enum Error {
    /// The file at the given path could not be read.
    IoError(String, std::io::Error),
}

/// A file as it was found: its path, and its content or the error that
/// reading it ended in.
#[derive(Debug)]
pub struct Document {
    pub path: String,
    pub content: Result<String, std::io::Error>,
}

/// A document as a mathematical value.
pub struct DocumentView {
    pub path: Seq<char>,
    pub content: Result<Seq<char>, std::io::Error>,
}

impl View for Document {
    type V = DocumentView;

    open spec fn view(&self) -> DocumentView {
        DocumentView {
            path: self.path@,
            content: match self.content {
                Ok(text) => Ok(text@),
                Err(cause) => Err(cause),
            },
        }
    }
}

/// The views of the documents, in order.
pub open spec fn document_views(documents: Seq<Document>) -> Seq<DocumentView> {
    Seq::new(documents.len(), |i: int| documents[i]@)
}

/// A failure to read a file, as a mathematical value: the path and the cause.
pub struct Failure {
    pub path: Seq<char>,
    pub cause: std::io::Error,
}

impl View for Error {
    type V = Failure;

    open spec fn view(&self) -> Failure {
        match self {
            Error::IoError(path, cause) => Failure { path: path@, cause: *cause },
        }
    }
}

/// The outcome for one path, as a mathematical value.
pub enum Outcome {
    /// The file was read and scored against the source.
    Scored { path: Seq<char>, score: ScoreView },
    /// The file could not be read.
    Failed(Failure),
}

/// What an entry of a detection's result says.
pub open spec fn outcome_view(entry: Result<(String, Score), Error>) -> Outcome {
    match entry {
        Ok((path, score)) => Outcome::Scored { path: path@, score: score@ },
        Err(error) => Outcome::Failed(error@),
    }
}

/// What the entries of a detection's result say, in order.
pub open spec fn outcome_views(entries: Seq<Result<(String, Score), Error>>) -> Seq<Outcome> {
    Seq::new(entries.len(), |i: int| outcome_view(entries[i]))
}

/// The text that a document is compared by: the normal form of its content
/// under the preprocessor; with no preprocessor, the content itself. A
/// document that could not be read has none: the failure holds the
/// document's path and the cause.
pub open spec fn parsed<P: Preprocessor>(document: DocumentView, preprocessor: Option<&P>) -> Result<
    Seq<char>,
    Failure,
> {
    match document.content {
        Ok(text) => Ok(normal_form_of(preprocessor, text)),
        Err(cause) => Err(Failure { path: document.path, cause }),
    }
}

/// The source of a detection once it is parsed, as a mathematical value.
pub struct ReferenceView {
    /// The source's path.
    pub path: Seq<char>,
    /// The source's normal form.
    pub text: Seq<char>,
}

/// The parsed source of a detection, or the failure to read it.
pub open spec fn referenced<P: Preprocessor>(
    source: DocumentView,
    preprocessor: Option<&P>,
) -> Result<ReferenceView, Failure> {
    match parsed(source, preprocessor) {
        Ok(text) => Ok(ReferenceView { path: source.path, text }),
        Err(failure) => Err(failure),
    }
}

/// The outcome for a target that is judged: its similarity to the source's
/// normal form where it could be read, the failure where it could not.
pub open spec fn target_outcome<P: Preprocessor>(
    reference: Seq<char>,
    target: DocumentView,
    preprocessor: Option<&P>,
) -> Outcome {
    match parsed(target, preprocessor) {
        Ok(text) => Outcome::Scored { path: target.path, score: similarity_of(reference, text) },
        Err(failure) => Outcome::Failed(failure),
    }
}

/// The outcome for one target, if it has one: a target at the source's own
/// path has none, whatever it holds.
pub open spec fn judged<P: Preprocessor>(
    reference: ReferenceView,
    target: DocumentView,
    preprocessor: Option<&P>,
) -> Option<Outcome> {
    if target.path == reference.path {
        None
    } else {
        Some(target_outcome(reference.text, target, preprocessor))
    }
}

/// The outcomes for the targets, in the targets' order.
pub open spec fn target_outcomes<P: Preprocessor>(
    reference: ReferenceView,
    targets: Seq<DocumentView>,
    preprocessor: Option<&P>,
) -> Seq<Outcome>
    decreases targets.len(),
{
    if targets.len() == 0 {
        Seq::empty()
    } else {
        let before = target_outcomes(reference, targets.drop_last(), preprocessor);
        match judged(reference, targets.last(), preprocessor) {
            Some(outcome) => before.push(outcome),
            None => before,
        }
    }
}

/// The result of a detection. Where the source cannot be read, it is that
/// one failure. Otherwise it is the outcomes for the targets, each scored
/// against the source's normal form.
pub open spec fn detection<P: Preprocessor>(
    source: DocumentView,
    targets: Seq<DocumentView>,
    preprocessor: Option<&P>,
) -> Seq<Outcome> {
    match referenced(source, preprocessor) {
        Ok(reference) => target_outcomes(reference, targets, preprocessor),
        Err(failure) => seq![Outcome::Failed(failure)],
    }
}

/// What the result of parsing a document says.
pub open spec fn parse_view(text: Result<String, Error>) -> Result<Seq<char>, Failure> {
    match text {
        Ok(text) => Ok(text@),
        Err(error) => Err(error@),
    }
}

/// The text that `document` is compared by, or the failure to read it.
pub fn parse_file<P: Preprocessor>(document: Document, preprocessor: Option<&P>) -> (text: Result<
    String,
    Error,
>)
    ensures
        parse_view(text) == parsed(document@, preprocessor),
{
    let Document { path, content } = document;
    match content {
        Ok(content) => match preprocessor {
            Some(pp) => Ok(pp.process(content.as_str())),
            None => Ok(content),
        },
        Err(e) => Err(Error::IoError(path, e)),
    }
}

/// The source of a detection once it is parsed: its path and the characters
/// of its normal form, which every target is scored against.
#[derive(Debug)]
pub struct Reference {
    path: String,
    text: Vec<char>,
}

impl View for Reference {
    type V = ReferenceView;

    closed spec fn view(&self) -> ReferenceView {
        ReferenceView { path: self.path@, text: self.text@ }
    }
}

/// What the result of parsing the source says.
pub open spec fn reference_view(reference: Result<Reference, Error>) -> Result<
    ReferenceView,
    Failure,
> {
    match reference {
        Ok(reference) => Ok(reference@),
        Err(error) => Err(error@),
    }
}

/// What the result of judging a target says.
pub open spec fn judgement_view(entry: Option<Result<(String, Score), Error>>) -> Option<Outcome> {
    match entry {
        Some(entry) => Some(outcome_view(entry)),
        None => None,
    }
}

impl Reference {
    /// Parses the source, once for the whole detection. Where the source
    /// could not be read there is no detection, only this failure.
    pub fn parse<P: Preprocessor>(source: Document, preprocessor: Option<&P>) -> (reference:
        Result<Reference, Error>)
        ensures
            reference_view(reference) == referenced(source@, preprocessor),
    {
        let path = source.path.clone();
        match parse_file(source, preprocessor) {
            Ok(text) => Ok(Reference { path, text: chars_of(text.as_str()) }),
            Err(e) => Err(e),
        }
    }

    /// Judges one target: none at the source's own path has an outcome; any
    /// other has its path and score, or the failure to read it.
    pub fn judge<P: Preprocessor>(&self, target: Document, preprocessor: Option<&P>) -> (entry:
        Option<Result<(String, Score), Error>>)
        ensures
            judgement_view(entry) == judged(self@, target@, preprocessor),
    {
        if target.path == self.path {
            return None;
        }
        let path = target.path.clone();
        match parse_file(target, preprocessor) {
            Ok(text) => Some(Ok((path, score(&self.text, &chars_of(text.as_str()))))),
            Err(e) => Some(Err(e)),
        }
    }
}

/// Sets the source against each of the targets.
///
/// Where the source could not be read, the result is that one failure.
/// Otherwise each target that is not at the source's own path gets one
/// entry, in the targets' order: its path and score, or the failure to read
/// it.
pub fn detect<P: Preprocessor>(
    source: Document,
    targets: Vec<Document>,
    preprocessor: Option<&P>,
) -> (results: Vec<Result<(String, Score), Error>>)
    ensures
        outcome_views(results@) == detection(source@, document_views(targets@), preprocessor),
{
    let ghost all = document_views(targets@);
    let mut results: Vec<Result<(String, Score), Error>> = Vec::new();
    let reference = match Reference::parse(source, preprocessor) {
        Ok(reference) => reference,
        Err(e) => {
            results.push(Err(e));
            assert(outcome_views(results@) =~= detection(source@, all, preprocessor));
            return results;
        },
    };
    for target in it: targets
        invariant
            it.seq() == targets@,
            all == document_views(targets@),
            outcome_views(results@) == target_outcomes(
                reference@,
                all.take(it.index() as int),
                preprocessor,
            ),
    {
        let ghost before = results@;
        let ghost index = it.index() as int;
        proof {
            assert(all.take(index + 1).drop_last() =~= all.take(index));
            assert(all.take(index + 1).last() == target@);
        }
        if let Some(entry) = reference.judge(target, preprocessor) {
            results.push(entry);
            assert(outcome_views(results@) =~= outcome_views(before).push(outcome_view(entry)));
        }
    }
    assert(all.take(all.len() as int) =~= all);
    results
}

/// A detection that is set up and not yet run.
#[derive(Debug)]
pub struct Resava {
    source: Document,
    targets: Vec<Document>,
}

impl Resava {
    /// The detection's source document.
    pub closed spec fn source(&self) -> Document {
        self.source
    }

    /// The detection's target documents, in order.
    pub closed spec fn targets(&self) -> Seq<Document> {
        self.targets@
    }

    /// A detection of `source` against `targets`.
    pub fn new(source: Document, targets: Vec<Document>) -> (resava: Self)
        ensures
            resava.source() == source,
            resava.targets() == targets@,
    {
        Resava { source, targets }
    }

    /// Runs the detection: see [`detect`].
    pub fn run<P: Preprocessor>(self, preprocessor: Option<&P>) -> (results: Vec<
        Result<(String, Score), Error>,
    >)
        ensures
            outcome_views(results@) == detection(
                self.source()@,
                document_views(self.targets()),
                preprocessor,
            ),
    {
        detect(self.source, self.targets, preprocessor)
    }
}

/// The path that an outcome is for.
pub open spec fn outcome_path(outcome: Outcome) -> Seq<char> {
    match outcome {
        Outcome::Scored { path, .. } => path,
        Outcome::Failed(failure) => failure.path,
    }
}

/// The outcomes for one target alone: its own, if it has one.
pub proof fn lemma_outcomes_of_one<P: Preprocessor>(
    reference: ReferenceView,
    target: DocumentView,
    preprocessor: Option<&P>,
)
    ensures
        target_outcomes(reference, seq![target], preprocessor) == match judged(
            reference,
            target,
            preprocessor,
        ) {
            Some(outcome) => seq![outcome],
            None => Seq::<Outcome>::empty(),
        },
{
    let one = seq![target];
    assert(one.drop_last() =~= Seq::<DocumentView>::empty());
    assert(one.last() == target);
    let before = target_outcomes(reference, one.drop_last(), preprocessor);
    assert(before =~= Seq::<Outcome>::empty());
    if let Some(outcome) = judged(reference, target, preprocessor) {
        assert(before.push(outcome) =~= seq![outcome]);
    }
}

/// Each target is judged by itself: the outcomes for a list of targets are
/// those for its first part followed by those for the rest. So no target's
/// outcome depends on another target, and the outcomes keep the targets'
/// order.
pub proof fn lemma_outcomes_of_parts<P: Preprocessor>(
    reference: ReferenceView,
    first: Seq<DocumentView>,
    rest: Seq<DocumentView>,
    preprocessor: Option<&P>,
)
    ensures
        target_outcomes(reference, first + rest, preprocessor) == target_outcomes(
            reference,
            first,
            preprocessor,
        ) + target_outcomes(reference, rest, preprocessor),
    decreases rest.len(),
{
    let head = target_outcomes(reference, first, preprocessor);
    if rest.len() == 0 {
        assert(first + rest =~= first);
        assert(head + Seq::<Outcome>::empty() =~= head);
    } else {
        lemma_outcomes_of_parts(reference, first, rest.drop_last(), preprocessor);
        assert((first + rest).drop_last() =~= first + rest.drop_last());
        assert((first + rest).last() == rest.last());
        let tail = target_outcomes(reference, rest.drop_last(), preprocessor);
        if let Some(last) = judged(reference, rest.last(), preprocessor) {
            assert((head + tail).push(last) =~= head + tail.push(last));
        }
    }
}

/// A target at the source's own path leaves no trace: the outcomes are the
/// same as without it.
pub proof fn lemma_source_among_targets_is_skipped<P: Preprocessor>(
    reference: ReferenceView,
    first: Seq<DocumentView>,
    target: DocumentView,
    rest: Seq<DocumentView>,
    preprocessor: Option<&P>,
)
    requires
        target.path == reference.path,
    ensures
        target_outcomes(reference, first + seq![target] + rest, preprocessor) == target_outcomes(
            reference,
            first + rest,
            preprocessor,
        ),
{
    lemma_outcomes_of_parts(reference, first + seq![target], rest, preprocessor);
    lemma_outcomes_of_parts(reference, first, seq![target], preprocessor);
    lemma_outcomes_of_one(reference, target, preprocessor);
    lemma_outcomes_of_parts(reference, first, rest, preprocessor);
    let head = target_outcomes(reference, first, preprocessor);
    assert(head + Seq::<Outcome>::empty() =~= head);
}

/// No outcome for a target is at the source's own path. A failure at that
/// path is therefore the source's own.
pub proof fn lemma_no_outcome_at_source_path<P: Preprocessor>(
    reference: ReferenceView,
    targets: Seq<DocumentView>,
    preprocessor: Option<&P>,
)
    ensures
        forall|i: int|
            0 <= i < target_outcomes(reference, targets, preprocessor).len() ==> outcome_path(
                #[trigger] target_outcomes(reference, targets, preprocessor)[i],
            ) != reference.path,
    decreases targets.len(),
{
    if targets.len() > 0 {
        lemma_no_outcome_at_source_path(reference, targets.drop_last(), preprocessor);
        let last = targets.last();
        assert(outcome_path(target_outcome(reference.text, last, preprocessor)) == last.path);
        let all = target_outcomes(reference, targets, preprocessor);
        let before = target_outcomes(reference, targets.drop_last(), preprocessor);
        assert forall|i: int| 0 <= i < all.len() implies outcome_path(#[trigger] all[i])
            != reference.path by {
            if i < before.len() {
                assert(all[i] == before[i]);
            }
        }
    }
}

/// Where no target is at the source's own path, every target has its
/// outcome, at its own position: a target that cannot be read has its
/// failure there, and the others have their scores all the same.
pub proof fn lemma_outcome_per_target<P: Preprocessor>(
    reference: ReferenceView,
    targets: Seq<DocumentView>,
    preprocessor: Option<&P>,
)
    requires
        forall|i: int| 0 <= i < targets.len() ==> (#[trigger] targets[i]).path != reference.path,
    ensures
        target_outcomes(reference, targets, preprocessor).len() == targets.len(),
        forall|i: int|
            0 <= i < targets.len() ==> #[trigger] target_outcomes(
                reference,
                targets,
                preprocessor,
            )[i] == target_outcome(reference.text, targets[i], preprocessor),
    decreases targets.len(),
{
    if targets.len() > 0 {
        lemma_outcome_per_target(reference, targets.drop_last(), preprocessor);
    }
}

/// A detection has no hidden state: two results for the same documents and
/// the same preprocessor hold the same outcomes.
pub proof fn lemma_detection_repeats<P: Preprocessor>(
    first: Seq<Result<(String, Score), Error>>,
    second: Seq<Result<(String, Score), Error>>,
    source: DocumentView,
    targets: Seq<DocumentView>,
    preprocessor: Option<&P>,
)
    requires
        outcome_views(first) == detection(source, targets, preprocessor),
        outcome_views(second) == detection(source, targets, preprocessor),
    ensures
        outcome_views(first) == outcome_views(second),
{
}

} // verus!
