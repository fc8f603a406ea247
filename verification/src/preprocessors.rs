//! The preprocessors: each gives a text its normal form, in which
//! differences of layout, letter case and comments are gone.

use crate::chars::{chars_of, lowercase, string_of};
use crate::rewrite::{
    collapse_whitespace, collapsed, lemma_without_marker_no_line_comment,
    lemma_without_slash_no_block_comment, strip_block_comments, strip_line_comments,
    without_block_comments, without_line_comments,
};
use vstd::prelude::*;

verus! {

/// The marker of a comment in x86 GAS assembly.
pub open spec fn asm_marker() -> Seq<char> {
    seq!['#']
}

/// The marker of a line comment in C.
pub open spec fn c_marker() -> Seq<char> {
    seq!['/', '/']
}

/// The normal form of plain text: every run of whitespace is one space, and
/// what is left is in lowercase.
pub open spec fn text_form(input: Seq<char>) -> Seq<char> {
    lowercase(collapsed(input))
}

/// The normal form of x86 GAS assembly: that of plain text, taken of the
/// input without its `#` comments.
pub open spec fn asm_form(input: Seq<char>) -> Seq<char> {
    text_form(without_line_comments(input, asm_marker()))
}

/// The normal form of C: that of plain text, taken of the input without its
/// `//` comments and then without its block comments.
pub open spec fn c_form(input: Seq<char>) -> Seq<char> {
    text_form(without_block_comments(without_line_comments(input, c_marker())))
}

/// Something that gives a text its normal form.
pub trait Preprocessor {
    /// The normal form of `input`. It depends on the preprocessor and the
    /// input alone.
    spec fn normal_form(&self, input: Seq<char>) -> Seq<char>;

    /// Computes the normal form of `input`.
    fn process(&self, input: &str) -> (output: String)
        ensures
            output@ == self.normal_form(input@),
    ;
}

/// Basic text preprocessor.
///
/// * Whitespace normalization
/// * Character case normalization
#[derive(Debug)]
pub struct TextPreprocessor {}

impl TextPreprocessor {
    pub fn new() -> (preprocessor: Self)
        ensures
            forall|input: Seq<char>| #[trigger] preprocessor.normal_form(input) == text_form(input),
    {
        TextPreprocessor {  }
    }

    /// The normal form of the text made of `input`.
    pub fn process_chars(&self, input: &Vec<char>) -> (output: String)
        ensures
            output@ == text_form(input@),
    {
        let collapsed = collapse_whitespace(input);
        let text = string_of(&collapsed);
        text.as_str().to_lowercase()
    }
}

impl Preprocessor for TextPreprocessor {
    open spec fn normal_form(&self, input: Seq<char>) -> Seq<char> {
        text_form(input)
    }

    fn process(&self, input: &str) -> (output: String) {
        let chars = chars_of(input);
        self.process_chars(&chars)
    }
}

/// x86 GAS assembly preprocessor.
///
/// * Removes comments
/// * … Everything else that basic TextPreprocessor does
#[derive(Debug)]
pub struct AsmPreprocessor {
    text_preprocessor: TextPreprocessor,
}

impl AsmPreprocessor {
    pub fn new() -> (preprocessor: Self)
        ensures
            forall|input: Seq<char>| #[trigger] preprocessor.normal_form(input) == asm_form(input),
    {
        AsmPreprocessor { text_preprocessor: TextPreprocessor::new() }
    }
}

impl Preprocessor for AsmPreprocessor {
    open spec fn normal_form(&self, input: Seq<char>) -> Seq<char> {
        asm_form(input)
    }

    fn process(&self, input: &str) -> (output: String) {
        let chars = chars_of(input);
        let marker: Vec<char> = vec!['#'];
        assert(marker@ =~= asm_marker());
        let code = strip_line_comments(&chars, &marker);
        self.text_preprocessor.process_chars(&code)
    }
}

/// C language preprocessor.
///
/// * Removes comments
/// * … Everything else that the basic TextPreprocessor does
#[derive(Debug)]
pub struct CPreprocessor {
    text_preprocessor: TextPreprocessor,
}

impl CPreprocessor {
    pub fn new() -> (preprocessor: Self)
        ensures
            forall|input: Seq<char>| #[trigger] preprocessor.normal_form(input) == c_form(input),
    {
        CPreprocessor { text_preprocessor: TextPreprocessor::new() }
    }
}

impl Preprocessor for CPreprocessor {
    open spec fn normal_form(&self, input: Seq<char>) -> Seq<char> {
        c_form(input)
    }

    fn process(&self, input: &str) -> (output: String) {
        let chars = chars_of(input);
        let marker: Vec<char> = vec!['/', '/'];
        assert(marker@ =~= c_marker());
        let without_lines = strip_line_comments(&chars, &marker);
        let code = strip_block_comments(&without_lines);
        self.text_preprocessor.process_chars(&code)
    }
}

/// Which preprocessor to use.
#[derive(Copy, Clone, PartialEq, Eq, Structural, Debug)]
pub enum PreprocessorArg {
    /// x86 GAS assembly
    Asm,
    /// C programming language
    C,
    /// Basic text preprocessing
    Text,
    /// Disable preprocessing
    Disabled,
}

/// One of the preprocessors of this library.
#[derive(Debug)]
pub enum Selected {
    Asm(AsmPreprocessor),
    C(CPreprocessor),
    Text(TextPreprocessor),
}

impl Preprocessor for Selected {
    open spec fn normal_form(&self, input: Seq<char>) -> Seq<char> {
        match self {
            Selected::Asm(_) => asm_form(input),
            Selected::C(_) => c_form(input),
            Selected::Text(_) => text_form(input),
        }
    }

    fn process(&self, input: &str) -> (output: String) {
        match self {
            Selected::Asm(preprocessor) => preprocessor.process(input),
            Selected::C(preprocessor) => preprocessor.process(input),
            Selected::Text(preprocessor) => preprocessor.process(input),
        }
    }
}

/// The normal form that a selection stands for: without a preprocessor a
/// text is its own normal form.
pub open spec fn selected_form(pp: PreprocessorArg, input: Seq<char>) -> Seq<char> {
    match pp {
        PreprocessorArg::Asm => asm_form(input),
        PreprocessorArg::C => c_form(input),
        PreprocessorArg::Text => text_form(input),
        PreprocessorArg::Disabled => input,
    }
}

/// The preprocessor that `pp` selects, if it selects one.
pub fn get_preprocessor(pp: &PreprocessorArg) -> (preprocessor: Option<Selected>)
    ensures
        *pp == PreprocessorArg::Asm <==> preprocessor matches Some(Selected::Asm(_)),
        *pp == PreprocessorArg::C <==> preprocessor matches Some(Selected::C(_)),
        *pp == PreprocessorArg::Text <==> preprocessor matches Some(Selected::Text(_)),
        *pp == PreprocessorArg::Disabled <==> preprocessor is None,
        preprocessor is Some ==> forall|input: Seq<char>| #[trigger]
            preprocessor->0.normal_form(input) == selected_form(*pp, input),
{
    match pp {
        PreprocessorArg::Asm => Some(Selected::Asm(AsmPreprocessor::new())),
        PreprocessorArg::C => Some(Selected::C(CPreprocessor::new())),
        PreprocessorArg::Text => Some(Selected::Text(TextPreprocessor::new())),
        PreprocessorArg::Disabled => None,
    }
}

/// The normal form of `input` under an optional preprocessor: with none, the
/// input itself.
pub open spec fn normal_form_of<P: Preprocessor>(
    preprocessor: Option<&P>,
    input: Seq<char>,
) -> Seq<char> {
    match preprocessor {
        Some(p) => p.normal_form(input),
        None => input,
    }
}

/// The assembly preprocessor does what the text preprocessor does, to the
/// input without its `#` comments.
pub proof fn lemma_asm_layers_on_text(
    assembly: AsmPreprocessor,
    text: TextPreprocessor,
    input: Seq<char>,
)
    ensures
        assembly.normal_form(input) == text.normal_form(without_line_comments(input, asm_marker())),
{
}

/// The C preprocessor does what the text preprocessor does, to the input
/// without its `//` comments first and its block comments second.
pub proof fn lemma_c_layers_on_text(c: CPreprocessor, text: TextPreprocessor, input: Seq<char>)
    ensures
        c.normal_form(input) == text.normal_form(
            without_block_comments(without_line_comments(input, c_marker())),
        ),
{
}

/// Nothing but comments is removed: on an input without `#` the assembly
/// preprocessor does what the text preprocessor does.
pub proof fn lemma_asm_without_comments(
    assembly: AsmPreprocessor,
    text: TextPreprocessor,
    input: Seq<char>,
)
    requires
        !input.contains('#'),
    ensures
        assembly.normal_form(input) == text.normal_form(input),
{
    lemma_without_marker_no_line_comment(input, asm_marker());
}

/// Nothing but comments is removed: on an input without `/` the C
/// preprocessor does what the text preprocessor does.
pub proof fn lemma_c_without_comments(c: CPreprocessor, text: TextPreprocessor, input: Seq<char>)
    requires
        !input.contains('/'),
    ensures
        c.normal_form(input) == text.normal_form(input),
{
    lemma_without_marker_no_line_comment(input, c_marker());
    lemma_without_slash_no_block_comment(input);
}

} // verus!
