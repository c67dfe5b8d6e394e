//! Reading what the grammar engine hands over.

use maquette_satysfi_language_server::grammar::{marks_of_pair, span_to_range, EngineToken};
use maquette_satysfi_language_server::parser::{DocumentTree, Mode, Rule, Search};
use maquette_satysfi_language_server::{
    BufferCst, Cst, CstPosition, CstRange, DocPosition, DocRange, Mark, ParseError, SyntaxError,
};
use pest::iterators::PairsBuilder;

fn span(from: (u32, u32), to: (u32, u32)) -> DocRange {
    DocRange::new(DocPosition::new(from.0, from.1), DocPosition::new(to.0, to.1))
}

const TEXT: &str = "@stage: 0\n% あい\nlet-math \\α = x\n";

/// `program { header_stage { stage } COMMENT let_math_stmt { math_cmd_name } }`
fn pairs(text: &str) -> pest::iterators::Pairs<'_, Rule> {
    PairsBuilder::new(text)
        .rule_with(Rule::program, 0, text.len(), |inner| {
            inner
                .rule_with(Rule::header_stage, 0, 10, |inner| inner.rule(Rule::stage, 8, 9))
                .rule(Rule::COMMENT, 10, 18)
                .rule_with(Rule::let_math_stmt, 19, 35, |inner| inner.rule(Rule::math_cmd_name, 28, 31))
        })
        .build()
}

#[test]
fn positions_count_lines_and_characters_from_zero_and_keep_the_byte() {
    let at = |byte: usize| CstPosition::from_position(&pest::Position::new(TEXT, byte).unwrap());
    assert_eq!(at(0), CstPosition::new(0, 0, 0));
    assert_eq!(at(8), CstPosition::new(8, 0, 8));
    assert_eq!(at(10), CstPosition::new(10, 1, 0));
    // after `% あ`: five bytes and three characters into the second line
    assert_eq!(at(15), CstPosition::new(15, 1, 3));
    assert_eq!(at(19), CstPosition::new(19, 2, 0));
    assert_eq!(at(31), CstPosition::new(31, 2, 11));
}

#[test]
fn spans_become_ranges() {
    let over = pest::Span::new(TEXT, 8, 31).unwrap();
    assert_eq!(
        CstRange::from_span(&over),
        CstRange::new(CstPosition::new(8, 0, 8), CstPosition::new(31, 2, 11))
    );
    assert_eq!(span_to_range(&over), span((0, 8), (2, 11)));
    let empty = pest::Span::new(TEXT, 12, 12).unwrap();
    assert_eq!(span_to_range(&empty), span((1, 2), (1, 2)));
}

#[test]
fn a_pair_gives_a_start_and_an_end_mark_for_each_pair_within_it() {
    let marks = marks_of_pair(pairs(TEXT).next().unwrap());
    let start = |rule, byte, line, character| Mark::Start { rule, pos: CstPosition::new(byte, line, character) };
    let end = |rule, byte, line, character| Mark::End { rule, pos: CstPosition::new(byte, line, character) };
    assert_eq!(
        marks,
        vec![
            start(Rule::program, 0, 0, 0),
            start(Rule::header_stage, 0, 0, 0),
            start(Rule::stage, 8, 0, 8),
            end(Rule::stage, 9, 0, 9),
            end(Rule::header_stage, 10, 1, 0),
            start(Rule::COMMENT, 10, 1, 0),
            end(Rule::COMMENT, 18, 1, 4),
            start(Rule::let_math_stmt, 19, 2, 0),
            start(Rule::math_cmd_name, 28, 2, 9),
            end(Rule::math_cmd_name, 31, 2, 11),
            end(Rule::let_math_stmt, 35, 2, 15),
            end(Rule::program, 36, 3, 0),
        ]
    );
}

#[test]
fn a_pair_gives_its_tree() {
    let cst = Cst::from_pair(pairs(TEXT).next().unwrap()).unwrap();
    assert_eq!(cst.rule, Rule::program);
    assert_eq!(cst.inner.len(), 3);
    assert_eq!(cst.inner[0].inner[0].rule, Rule::stage);
    assert_eq!(cst.inner[2].inner[0].range.into(), span((2, 9), (2, 11)));
    assert!(cst.is_well_formed());
    let again = Cst::from_pair(pairs(TEXT).next().unwrap()).unwrap();
    assert_eq!(again.pretty_text(TEXT, 0), cst.pretty_text(TEXT, 0));
}

#[test]
fn the_text_of_a_node_is_what_its_range_covers() {
    let (buffer, error) = BufferCst::parse_into(TEXT.to_owned(), Cst::from_parse(Ok(pairs(TEXT))));
    assert!(error.is_none());
    let cst = buffer.cst().unwrap();
    assert_eq!(buffer.as_str(cst), TEXT);
    assert_eq!(buffer.as_str(&cst.inner[0]), "@stage: 0\n");
    assert_eq!(buffer.as_str(&cst.inner[0].inner[0]), "0");
    assert_eq!(buffer.as_str(&cst.inner[1]), "% あい");
    assert_eq!(buffer.as_str(&cst.inner[2].inner[0]), "\\α");
    assert_eq!(buffer.substring(&cst.inner[2]), Some("let-math \\α = x"));
    assert_eq!(cst.inner[1].as_str(buffer.buffer()), "% あい");
}

#[test]
fn a_tree_that_does_not_fit_the_text_is_not_kept() {
    let tree = Cst::from_pair(pairs(TEXT).next().unwrap()).unwrap();
    // a shorter text
    let (buffer, error) = BufferCst::parse_into("@stage: 0\n".to_owned(), Ok(tree));
    assert!(matches!(error, Some(ParseError::InvariantViolation)));
    assert!(buffer.cst().is_none());
    assert_eq!(buffer.buffer(), "@stage: 0\n");
    // a text in which a range ends within a character
    let tree = Cst::from_pair(pairs(TEXT).next().unwrap()).unwrap();
    let shifted = TEXT.replace("@stage: 0", "@stage: あ").replace("あい", "い");
    assert_eq!(shifted.len(), TEXT.len() - 1);
    let (buffer, error) = BufferCst::parse_into(shifted, Ok(tree));
    assert!(matches!(error, Some(ParseError::InvariantViolation)));
    assert!(buffer.cst().is_none());
}

#[test]
fn a_node_of_another_text_has_no_text_here() {
    let (buffer, _) = BufferCst::parse_into("あ".to_owned(), Err(ParseError::InvariantViolation));
    let node = |from: usize, to: usize| Cst {
        rule: Rule::var,
        range: CstRange::new(CstPosition::new(from, 0, 0), CstPosition::new(to, 0, 1)),
        inner: vec![],
    };
    assert_eq!(buffer.substring(&node(0, 3)), Some("あ"));
    assert_eq!(buffer.substring(&node(0, 0)), Some(""));
    assert_eq!(buffer.substring(&node(3, 3)), Some(""));
    // an empty range has the empty text, also within a character
    assert_eq!(buffer.substring(&node(1, 1)), Some(""));
    assert_eq!(buffer.substring(&node(2, 2)), Some(""));
    assert_eq!(buffer.as_str(&node(1, 1)), "");
    assert_eq!(buffer.substring(&node(4, 4)), None);
    assert_eq!(buffer.substring(&node(0, 1)), None);
    assert_eq!(buffer.substring(&node(2, 3)), None);
    assert_eq!(buffer.substring(&node(0, 4)), None);
    assert_eq!(buffer.substring(&node(3, 0)), None);
    assert!(node(0, 3).fits_text("あ"));
    assert!(!node(0, 2).fits_text("あ"));
}

#[test]
fn an_ill_formed_tree_is_not_kept() {
    let turned = Cst {
        rule: Rule::program,
        range: CstRange::new(CstPosition::new(0, 0, 0), CstPosition::new(4, 0, 4)),
        inner: vec![Cst {
            rule: Rule::var,
            range: CstRange::new(CstPosition::new(2, 0, 2), CstPosition::new(6, 0, 6)),
            inner: vec![],
        }],
    };
    let (buffer, error) = BufferCst::parse_into("abcdefgh".to_owned(), Ok(turned));
    assert!(matches!(error, Some(ParseError::InvariantViolation)));
    assert!(buffer.cst().is_none());
}

#[test]
fn a_parse_without_a_pair_gives_no_tree() {
    let none = PairsBuilder::<Rule>::new(TEXT).build();
    assert!(matches!(Cst::from_parse(Ok(none)), Err(ParseError::InvariantViolation)));
}

#[test]
fn a_rejected_parse_gives_the_failure_with_its_place() {
    let at_a_place = pest::error::Error::<Rule>::new_from_pos(
        pest::error::ErrorVariant::CustomError { message: "no statement".to_owned() },
        pest::Position::new(TEXT, 15).unwrap(),
    );
    match Cst::from_parse(Err(at_a_place)) {
        Err(ParseError::GrammarEngineFailure(failure)) => {
            assert_eq!(failure.message, "no statement");
            assert_eq!(failure.location, Some(span((1, 3), (1, 3))));
        }
        other => panic!("another outcome: {:?}", other),
    }
    let over_a_span = pest::error::Error::<Rule>::new_from_span(
        pest::error::ErrorVariant::ParsingError { positives: vec![Rule::var], negatives: vec![] },
        pest::Span::new(TEXT, 8, 31).unwrap(),
    );
    let failure = SyntaxError::from_error(&over_a_span);
    assert_eq!(failure.location, Some(span((0, 8), (2, 11))));
    assert_eq!(failure.message, "expected var");
}

#[test]
fn a_failure_has_no_place_where_a_line_or_column_is_zero() {
    let failure = SyntaxError::new("broken".to_owned(), (3, 1), (3, 9));
    assert_eq!(failure.message, "broken");
    assert_eq!(failure.location, Some(span((2, 0), (2, 8))));
    assert_eq!(SyntaxError::new("broken".to_owned(), (0, 1), (3, 9)).location, None);
    assert_eq!(SyntaxError::new("broken".to_owned(), (1, 1), (3, 0)).location, None);
}

#[test]
fn the_mode_of_a_text_without_a_tree_is_program() {
    let (buffer, _) = BufferCst::parse_into(TEXT.to_owned(), Err(ParseError::InvariantViolation));
    assert_eq!(buffer.mode(&DocPosition::new(0, 3)), Mode::Program);
    assert_eq!(buffer.mode(&DocPosition::new(1, 2)), Mode::Program);
    let (buffer, _) = BufferCst::parse_into(TEXT.to_owned(), Cst::from_parse(Ok(pairs(TEXT))));
    assert_eq!(buffer.mode(&DocPosition::new(0, 3)), Mode::Header);
    assert_eq!(buffer.mode(&DocPosition::new(1, 2)), Mode::Comment);
    assert_eq!(buffer.mode(&DocPosition::new(2, 3)), Mode::Program);
    assert_eq!(buffer.mode(&DocPosition::new(9, 9)), Mode::Program);
}

#[test]
fn a_parsed_document_can_be_searched() {
    let document = DocumentTree::from_document(Ok(pairs(TEXT)));
    assert!(document.tree.is_ok());
    assert_eq!(document.mode(&DocPosition::new(1, 1)), Mode::Comment);
    assert_eq!(document.mode(&DocPosition::new(2, 1)), Mode::Program);
    let found: Vec<Rule> = Search::dig(&document, &DocPosition::new(0, 8)).iter().map(|c| c.rule).collect();
    assert_eq!(found, vec![Rule::stage, Rule::header_stage]);
    assert_eq!(Search::pickup(&document, Rule::math_cmd_name).len(), 1);
    assert_eq!(Search::choose_child(&document, &DocPosition::new(1, 0)).unwrap().rule, Rule::header_stage);
    let root = document.tree.as_ref().unwrap();
    assert_eq!(Search::pickup(root, Rule::stage).len(), 1);
    assert_eq!(Search::dig(root, &DocPosition::new(2, 10)).len(), 2);
    assert!(Search::choose_child(root, &DocPosition::new(5, 0)).is_none());
}

#[test]
fn a_rejected_document_has_nothing_to_find() {
    let failure = pest::error::Error::<Rule>::new_from_pos(
        pest::error::ErrorVariant::CustomError { message: "no".to_owned() },
        pest::Position::from_start(TEXT),
    );
    let document = DocumentTree::from_document(Err(failure));
    assert!(matches!(document.tree, Err(ParseError::GrammarEngineFailure(_))));
    assert_eq!(document.mode(&DocPosition::new(0, 3)), Mode::Program);
    assert!(Search::dig(&document, &DocPosition::new(0, 3)).is_empty());
    assert!(Search::pickup(&document, Rule::stage).is_empty());
    assert!(Search::choose_child(&document, &DocPosition::new(0, 3)).is_none());
}

#[test]
fn a_token_of_the_engine_becomes_a_mark_counted_from_zero() {
    let opening = EngineToken { start: true, rule: Rule::var, byte: 12, line: 3, column: 5 };
    assert_eq!(opening.to_mark(), Mark::Start { rule: Rule::var, pos: CstPosition::new(12, 2, 4) });
    let closing = EngineToken { start: false, rule: Rule::stage, byte: 0, line: 1, column: 1 };
    assert_eq!(closing.to_mark(), Mark::End { rule: Rule::stage, pos: CstPosition::new(0, 0, 0) });
    assert_eq!(Mark::from_parts(true, Rule::program, CstPosition::new(1, 0, 1)), Mark::Start {
        rule: Rule::program,
        pos: CstPosition::new(1, 0, 1),
    });
}

#[test]
fn a_pair_that_is_read_twice_gives_the_same_tree_twice() {
    let first = pairs(TEXT).next().unwrap();
    let second = first.clone();
    assert_eq!(marks_of_pair(first.clone()), marks_of_pair(second.clone()));
    let one = Cst::from_pair(first).unwrap();
    let other = Cst::from_pair(second).unwrap();
    assert_eq!(one.pretty_text(TEXT, 0), other.pretty_text(TEXT, 0));
    assert_eq!(one.inner.len(), other.inner.len());
}
