//! What the grammar engine hands over, and its way into the library.
//!
//! The grammar engine is `pest`. It reports a parse as pairs that borrow
//! from the text; here they are read once, into marks and positions of the
//! library's own, and the owned tree is built from those.

use vstd::prelude::*;
use crate::cst::{Cst, Tree};
use crate::marks::{lemma_marks_decide_tree, Mark};
use crate::parser::Rule;
use crate::position::{CstPosition, CstRange, DocPosition, DocRange};

verus! {

/// `pest::iterators::Pair`: a matched rule with all that was matched within
/// it. Nothing of its inside is known here.
#[verifier::external_type_specification]
#[verifier::external_body]
#[verifier::reject_recursive_types(R)]
pub struct ExPair<'i, R>(pest::iterators::Pair<'i, R>);

/// `pest::iterators::Pairs`: pairs in a row. Nothing of its inside is known
/// here.
#[verifier::external_type_specification]
#[verifier::external_body]
#[verifier::reject_recursive_types(R)]
pub struct ExPairs<'i, R>(pest::iterators::Pairs<'i, R>);

/// `pest::Position`: a place in a text. Nothing of its inside is known here.
#[verifier::external_type_specification]
#[verifier::external_body]
pub struct ExPosition<'i>(pest::Position<'i>);

/// `pest::Span`: a stretch of a text. Nothing of its inside is known here.
#[verifier::external_type_specification]
#[verifier::external_body]
pub struct ExSpan<'i>(pest::Span<'i>);

/// `pest::error::Error`: why a text was rejected. Nothing of its inside is
/// known here.
#[verifier::external_type_specification]
#[verifier::external_body]
#[verifier::reject_recursive_types(R)]
pub struct ExError<R>(pest::error::Error<R>);

/// A parse that the grammar engine rejected.
#[derive(Debug)]
pub struct SyntaxError {
    /// What the grammar engine says of the failure.
    pub message: String,
    /// Where it failed, if the grammar engine told.
    pub location: Option<DocRange>,
}

/// Why a text has no syntax tree.
#[derive(Debug)]
pub enum ParseError {
    /// The grammar engine rejected the text.
    GrammarEngineFailure(SyntaxError),
    /// The grammar engine accepted the text, and what it handed over is no
    /// tree that the text can be held with: not well-formed, not fitting
    /// the text, or with a statement that lacks the child naming what it
    /// defines.
    InvariantViolation,
}

/// A token as the grammar engine gives it: whether it opens or closes a
/// match, the rule, and where it stands, with the line and the column
/// counted from 1.
#[derive(Clone, Copy, Debug, PartialEq, Eq, Structural)]
pub struct EngineToken {
    /// Whether the token opens a match.
    pub start: bool,
    /// The rule that is matched.
    pub rule: Rule,
    /// The byte offset of the token in the text.
    pub byte: usize,
    /// The line of the token, counted from 1.
    pub line: usize,
    /// The column of the token, counted from 1.
    pub column: usize,
}

/// The tokens of a pair of the grammar engine: what `pest::iterators::Pair`
/// holds, each `pest::Token` with the byte offset, the line and the column
/// of its position.
pub uninterp spec fn pair_tokens(pair: pest::iterators::Pair<'_, Rule>) -> Seq<EngineToken>;

/// `pest::iterators::Pair::tokens`: the start and end tokens of the pair and
/// of all pairs within it, in the order in which the grammar engine gives
/// them, each `pest::Token` taken apart and with the offset, the line and
/// the column of its position. Lines and columns are counted from 1.
#[verifier::external_body]
fn tokens_of_pair(pair: pest::iterators::Pair<'_, Rule>) -> (tokens: Vec<EngineToken>)
    ensures
        tokens@ == pair_tokens(pair),
        forall|i: int| 0 <= i < tokens.len() ==> (#[trigger] tokens[i]).counted(),
{
    pair.tokens().map(|token| match token {
        pest::Token::Start { rule, pos } => EngineToken::at(true, rule, &pos),
        pest::Token::End { rule, pos } => EngineToken::at(false, rule, &pos),
    }).collect()
}

/// The pairs that the grammar engine's `pest::iterators::Pairs` holds, each
/// as its tokens.
pub uninterp spec fn pairs_tokens(pairs: pest::iterators::Pairs<'_, Rule>) -> Seq<Seq<EngineToken>>;

/// `Iterator::next` on `pest::iterators::Pairs`: the first of the pairs
/// that it holds, and none where it holds none.
#[verifier::external_body]
fn pairs_first<'i>(pairs: pest::iterators::Pairs<'i, Rule>) -> (first: Option<
    pest::iterators::Pair<'i, Rule>,
>)
    ensures
        match first {
            Some(pair) => pairs_tokens(pairs).len() > 0 && pair_tokens(pair) == pairs_tokens(pairs)[0],
            None => pairs_tokens(pairs).len() == 0,
        },
{
    let mut pairs = pairs;
    pairs.next()
}

/// The byte offset of a position of the grammar engine in its text: what
/// `pest::Position::pos` gives.
pub uninterp spec fn position_byte(pos: pest::Position<'_>) -> usize;

/// `pest::Position::pos`: the byte offset of the position in its text.
#[verifier::external_body]
fn position_offset(pos: &pest::Position<'_>) -> (byte: usize)
    ensures
        byte == position_byte(*pos),
{
    pos.pos()
}

/// The line and the column of a position of the grammar engine, both
/// counted from 1: what `pest::Position::line_col` gives.
pub uninterp spec fn position_place(pos: pest::Position<'_>) -> (usize, usize);

/// `pest::Position::line_col`: the line and the column of the position,
/// both counted from 1. It panics on a position beyond the end of its text,
/// and `pest` hands out no such position.
#[verifier::external_body]
fn position_line_col(pos: &pest::Position<'_>) -> (at: (usize, usize))
    ensures
        at == position_place(*pos),
        at.0 >= 1,
        at.1 >= 1,
{
    pos.line_col()
}

/// The position where a span of the grammar engine begins: what
/// `pest::Span::start_pos` gives.
pub uninterp spec fn span_start_pos(span: pest::Span<'_>) -> pest::Position<'_>;

/// `pest::Span::start_pos`: the position where the span begins.
#[verifier::external_body]
fn span_start<'i>(span: &pest::Span<'i>) -> (pos: pest::Position<'i>)
    ensures
        pos == span_start_pos(*span),
{
    span.start_pos()
}

/// The position where a span of the grammar engine ends: what
/// `pest::Span::end_pos` gives.
pub uninterp spec fn span_end_pos(span: pest::Span<'_>) -> pest::Position<'_>;

/// `pest::Span::end_pos`: the position where the span ends.
#[verifier::external_body]
fn span_end<'i>(span: &pest::Span<'i>) -> (pos: pest::Position<'i>)
    ensures
        pos == span_end_pos(*span),
{
    span.end_pos()
}

/// What the grammar engine says of a failure, without the place: what
/// `pest::error::ErrorVariant::message` gives for the `variant` field of a
/// `pest::error::Error`.
pub uninterp spec fn error_text(error: pest::error::Error<Rule>) -> Seq<char>;

/// `pest::error::ErrorVariant::message` on the `variant` field of a
/// `pest::error::Error`: what the grammar engine says of the failure, without
/// the place.
#[verifier::external_body]
fn error_message(error: &pest::error::Error<Rule>) -> (message: String)
    ensures
        message@ == error_text(*error),
{
    error.variant.message().into_owned()
}

/// The lines and columns between which a parse failed: what the `line_col`
/// field of a `pest::error::Error` holds, twice the same where it names one
/// place only.
pub uninterp spec fn error_places(error: pest::error::Error<Rule>) -> ((usize, usize), (usize, usize));

/// The `line_col` field of a `pest::error::Error`: the lines and columns
/// between which the parse failed, twice the same where the error names one
/// place only.
#[verifier::external_body]
fn error_line_col(error: &pest::error::Error<Rule>) -> (at: ((usize, usize), (usize, usize)))
    ensures
        at == error_places(*error),
{
    match error.line_col {
        pest::error::LineColLocation::Pos(at) => (at, at),
        pest::error::LineColLocation::Span(from, to) => (from, to),
    }
}

impl DocPosition {
    /// The document position of a line and a column that are counted from 1,
    /// each cut to 32 bits.
    pub open spec fn of_line_col(line: usize, column: usize) -> DocPosition {
        DocPosition { line: (line - 1) as u32, character: (column - 1) as u32 }
    }

    /// The document position of a line and a column that are counted from 1.
    pub fn from_line_col(line: usize, column: usize) -> (pos: DocPosition)
        requires
            line >= 1,
            column >= 1,
        ensures
            pos == DocPosition::of_line_col(line, column),
    {
        DocPosition {
            line: #[verifier::truncate]
            ((line - 1) as u32),
            character: #[verifier::truncate]
            ((column - 1) as u32),
        }
    }
}

impl CstPosition {
    /// The position at byte `byte`, line `line` and column `column`, the two
    /// counted from 1.
    pub open spec fn of_line_col(byte: usize, line: usize, column: usize) -> CstPosition {
        CstPosition { byte, line: (line - 1) as u32, character: (column - 1) as u32 }
    }

    /// The position at byte `byte`, line `line` and column `column`, the two
    /// counted from 1.
    pub fn from_line_col(byte: usize, line: usize, column: usize) -> (pos: CstPosition)
        requires
            line >= 1,
            column >= 1,
        ensures
            pos == CstPosition::of_line_col(byte, line, column),
            pos.position() == DocPosition::of_line_col(line, column),
    {
        let at = DocPosition::from_line_col(line, column);
        CstPosition { byte, line: at.line, character: at.character }
    }

    /// The position that a position of the grammar engine stands for: at
    /// its byte offset, with its line and column counted from 0.
    pub open spec fn of_position(pos: pest::Position<'_>) -> CstPosition {
        CstPosition::of_line_col(position_byte(pos), position_place(pos).0, position_place(pos).1)
    }

    /// The position that the grammar engine's position stands for.
    pub fn from_position(pos: &pest::Position<'_>) -> (at: CstPosition)
        ensures
            at == CstPosition::of_position(*pos),
    {
        let byte = position_offset(pos);
        let (line, column) = position_line_col(pos);
        CstPosition::from_line_col(byte, line, column)
    }
}

impl CstRange {
    /// The range that a span of the grammar engine stands for: from the
    /// position where it begins to the one where it ends.
    pub open spec fn of_span(span: pest::Span<'_>) -> CstRange {
        CstRange {
            start: CstPosition::of_position(span_start_pos(span)),
            end: CstPosition::of_position(span_end_pos(span)),
        }
    }

    /// The range that the grammar engine's span stands for.
    pub fn from_span(span: &pest::Span<'_>) -> (range: CstRange)
        ensures
            range == CstRange::of_span(*span),
    {
        let start = CstPosition::from_position(&span_start(span));
        let end = CstPosition::from_position(&span_end(span));
        CstRange { start, end }
    }
}

/// The range in document space that the grammar engine's span stands for:
/// that of its range, without the byte offsets.
pub fn span_to_range(s: &pest::Span<'_>) -> (range: DocRange)
    ensures
        range == CstRange::of_span(*s).range(),
{
    let start = position_line_col(&span_start(s));
    let start = DocPosition::from_line_col(start.0, start.1);
    let end = position_line_col(&span_end(s));
    let end = DocPosition::from_line_col(end.0, end.1);
    DocRange { start, end }
}

impl Mark {
    /// The mark with the given parts: a start mark where `start` holds, an
    /// end mark otherwise.
    pub open spec fn of_parts(start: bool, rule: Rule, pos: CstPosition) -> Mark {
        if start {
            Mark::Start { rule, pos }
        } else {
            Mark::End { rule, pos }
        }
    }

    /// The mark with the given parts.
    pub fn from_parts(start: bool, rule: Rule, pos: CstPosition) -> (mark: Mark)
        ensures
            mark == Mark::of_parts(start, rule, pos),
    {
        if start {
            Mark::Start { rule, pos }
        } else {
            Mark::End { rule, pos }
        }
    }
}

impl EngineToken {
    /// Whether the line and the column are counted from 1.
    pub open spec fn counted(self) -> bool {
        self.line >= 1 && self.column >= 1
    }

    /// The token of the given kind and rule at a position of the grammar
    /// engine.
    fn at(start: bool, rule: Rule, pos: &pest::Position<'_>) -> (token: EngineToken)
        ensures
            token.start == start,
            token.rule == rule,
            token.counted(),
    {
        let (line, column) = position_line_col(pos);
        EngineToken { start, rule, byte: position_offset(pos), line, column }
    }

    /// The mark that the token stands for: of the same kind and rule, with
    /// the line and the character counted from 0.
    pub open spec fn mark(self) -> Mark {
        Mark::of_parts(self.start, self.rule, CstPosition::of_line_col(self.byte, self.line, self.column))
    }

    /// The mark that the token stands for.
    pub fn to_mark(&self) -> (mark: Mark)
        requires
            self.counted(),
        ensures
            mark == self.mark(),
    {
        Mark::from_parts(
            self.start,
            self.rule,
            CstPosition::from_line_col(self.byte, self.line, self.column),
        )
    }
}

/// The marks that tokens of the grammar engine stand for, one for each.
pub open spec fn marks_of(tokens: Seq<EngineToken>) -> Seq<Mark> {
    tokens.map_values(|t: EngineToken| t.mark())
}

/// The marks of a pair of the grammar engine: one for each of its tokens, in
/// their order.
pub fn marks_of_pair(pair: pest::iterators::Pair<'_, Rule>) -> (marks: Vec<Mark>)
    ensures
        marks@ == marks_of(pair_tokens(pair)),
{
    let tokens = tokens_of_pair(pair);
    let mut marks: Vec<Mark> = Vec::new();
    let mut i: usize = 0;
    while i < tokens.len()
        invariant
            i <= tokens.len(),
            forall|k: int| 0 <= k < tokens.len() ==> (#[trigger] tokens[k]).counted(),
            marks@ =~= marks_of(tokens@.subrange(0, i as int)),
        decreases tokens.len() - i,
    {
        marks.push(tokens[i].to_mark());
        i += 1;
    }
    assert(tokens@.subrange(0, i as int) =~= tokens@);
    marks
}

/// A pair decides its tree: two trees with the marks of one pair are the
/// same tree, so that reading a pair twice gives twice the same tree.
pub proof fn lemma_pair_decides_tree(pair: pest::iterators::Pair<'_, Rule>, first: Tree, second: Tree)
    requires
        first.marks() == marks_of(pair_tokens(pair)),
        second.marks() == marks_of(pair_tokens(pair)),
    ensures
        first == second,
{
    lemma_marks_decide_tree(first, second);
}

impl SyntaxError {
    /// The place of a failure between two lines and columns, where all four
    /// numbers are counted from 1; none where one of them is 0.
    pub open spec fn place(from: (usize, usize), to: (usize, usize)) -> Option<DocRange> {
        if from.0 >= 1 && from.1 >= 1 && to.0 >= 1 && to.1 >= 1 {
            Some(
                DocRange {
                    start: DocPosition::of_line_col(from.0, from.1),
                    end: DocPosition::of_line_col(to.0, to.1),
                },
            )
        } else {
            None
        }
    }

    /// The failure with the given message, between the given lines and
    /// columns.
    pub fn new(message: String, from: (usize, usize), to: (usize, usize)) -> (error: SyntaxError)
        ensures
            error.message == message,
            error.location == SyntaxError::place(from, to),
    {
        let location = if from.0 >= 1 && from.1 >= 1 && to.0 >= 1 && to.1 >= 1 {
            Some(
                DocRange {
                    start: DocPosition::from_line_col(from.0, from.1),
                    end: DocPosition::from_line_col(to.0, to.1),
                },
            )
        } else {
            None
        };
        SyntaxError { message, location }
    }

    /// Whether this is the failure that an error of the grammar engine
    /// stands for: with what the error says of the failure as message, and
    /// with the place between its lines and columns.
    pub open spec fn tells(self, error: pest::error::Error<Rule>) -> bool {
        &&& self.message@ == error_text(error)
        &&& self.location == SyntaxError::place(error_places(error).0, error_places(error).1)
    }

    /// The failure that the grammar engine's error stands for: with what
    /// it says of the failure as message, and with the place between its
    /// lines and columns.
    pub fn from_error(error: &pest::error::Error<Rule>) -> (failure: SyntaxError)
        ensures
            failure.message@ == error_text(*error),
            failure.location == SyntaxError::place(error_places(*error).0, error_places(*error).1),
    {
        let (from, to) = error_line_col(error);
        SyntaxError::new(error_message(error), from, to)
    }
}

/// Whether `r` is what is read of tokens of the grammar engine: the
/// well-formed tree whose marks are theirs, and a violation where there is
/// no such tree.
pub open spec fn read_of(tokens: Seq<EngineToken>, r: Result<Cst, ParseError>) -> bool {
    match r {
        Ok(cst) => cst@.marks() == marks_of(tokens) && cst@.wf(),
        Err(error) => error == ParseError::InvariantViolation && forall|tree: Tree|
            tree.marks() == marks_of(tokens) ==> !tree.wf(),
    }
}

/// Whether `r` is what is read of an answer of the grammar engine: the
/// tree of its first pair where it accepted the text, a violation where it
/// gave no pair or no well-formed tree, and its failure where it rejected
/// the text.
pub open spec fn read_of_parse(
    parsed: Result<pest::iterators::Pairs<'_, Rule>, pest::error::Error<Rule>>,
    r: Result<Cst, ParseError>,
) -> bool {
    match parsed {
        Ok(pairs) => if pairs_tokens(pairs).len() > 0 {
            read_of(pairs_tokens(pairs)[0], r)
        } else {
            r == Err::<Cst, ParseError>(ParseError::InvariantViolation)
        },
        Err(error) => r matches Err(ParseError::GrammarEngineFailure(failure)) && failure.tells(
            error,
        ),
    }
}

impl Cst {
    /// The owned tree of a pair of the grammar engine: the tree whose marks
    /// are those of the pair, so that it holds the pair and all pairs
    /// within it, each with its rule and range, in their order. `None`
    /// where what the grammar engine gives is no well-formed tree.
    pub fn from_pair(pair: pest::iterators::Pair<'_, Rule>) -> (r: Option<Cst>)
        ensures
            match r {
                Some(cst) => cst@.marks() == marks_of(pair_tokens(pair)) && cst@.wf(),
                None => forall|tree: Tree| tree.marks() == marks_of(pair_tokens(pair)) ==> !tree.wf(),
            },
    {
        let marks = marks_of_pair(pair);
        Cst::from_marks(&marks)
    }

    /// The owned tree of what the grammar engine answered: of its first
    /// pair, where it accepted the text; the failure otherwise.
    pub fn from_parse(
        parsed: Result<pest::iterators::Pairs<'_, Rule>, pest::error::Error<Rule>>,
    ) -> (r: Result<Cst, ParseError>)
        ensures
            read_of_parse(parsed, r),
    {
        match parsed {
            Ok(pairs) => match pairs_first(pairs) {
                Some(pair) => match Cst::from_pair(pair) {
                    Some(cst) => Ok(cst),
                    None => Err(ParseError::InvariantViolation),
                },
                None => Err(ParseError::InvariantViolation),
            },
            Err(error) => Err(ParseError::GrammarEngineFailure(SyntaxError::from_error(&error))),
        }
    }
}

} // verus!
