//! A tree written out as text.

use maquette_satysfi_language_server::parser::{text_eq, Rule};
use maquette_satysfi_language_server::pretty::decimal_string;
use maquette_satysfi_language_server::{BufferCst, Cst, CstPosition, Mark, ParseError};

#[test]
fn numbers_are_written_in_decimal() {
    assert_eq!(decimal_string(0), "0");
    assert_eq!(decimal_string(7), "7");
    assert_eq!(decimal_string(10), "10");
    assert_eq!(decimal_string(409), "409");
    assert_eq!(decimal_string(1234567890), "1234567890");
    assert_eq!(decimal_string(u32::MAX), "4294967295");
}

#[test]
fn rules_have_the_names_of_the_grammar() {
    assert_eq!(Rule::program.name(), "program");
    assert_eq!(Rule::let_inline_stmt.name(), "let_inline_stmt");
    assert_eq!(Rule::COMMENT.name(), "COMMENT");
    assert_eq!(Rule::EOI.name(), "EOI");
    for rule in [Rule::var, Rule::header_stage, Rule::math_cmd_expr_option, Rule::string_interior] {
        assert_eq!(rule.name(), format!("{:?}", rule));
    }
}

fn header() -> Cst {
    let at = |byte: usize, line: u32, character: u32| CstPosition::new(byte, line, character);
    Cst::from_marks(&vec![
        Mark::Start { rule: Rule::program, pos: at(0, 0, 0) },
        Mark::Start { rule: Rule::header_stage, pos: at(0, 0, 0) },
        Mark::Start { rule: Rule::stage, pos: at(8, 0, 8) },
        Mark::End { rule: Rule::stage, pos: at(9, 0, 9) },
        Mark::End { rule: Rule::header_stage, pos: at(10, 1, 0) },
        Mark::Start { rule: Rule::COMMENT, pos: at(10, 1, 0) },
        Mark::End { rule: Rule::COMMENT, pos: at(15, 1, 3) },
        Mark::End { rule: Rule::program, pos: at(15, 1, 3) },
    ])
    .unwrap()
}

const HEADER: &str = "@stage: 0\n% あ";

#[test]
fn a_tree_is_written_one_node_a_line() {
    let expected = "- [program] (0:0..1:3)\n  - [header_stage] (0:0..1:0)\n    | [stage] (0:8..0:9): \"0\"\n  | [COMMENT] (1:0..1:3): \"% あ\"\n";
    assert_eq!(header().pretty_text(HEADER, 0), expected);
}

#[test]
fn the_root_is_indented_as_asked() {
    let cst = header();
    assert_eq!(cst.inner[1].pretty_text(HEADER, 3), "   | [COMMENT] (1:0..1:3): \"% あ\"\n");
    assert_eq!(
        cst.inner[0].pretty_text(HEADER, 1),
        " - [header_stage] (0:0..1:0)\n   | [stage] (0:8..0:9): \"0\"\n"
    );
}

#[test]
fn a_text_is_shown_as_its_tree() {
    let (buffer, error) = BufferCst::parse_into(HEADER.to_owned(), Ok(header()));
    assert!(error.is_none());
    assert_eq!(buffer.to_string(), header().pretty_text(HEADER, 0));
}

#[test]
fn a_text_without_a_tree_is_shown_as_it_is() {
    let (buffer, _) = BufferCst::parse_into("let x =".to_owned(), Err(ParseError::InvariantViolation));
    assert_eq!(buffer.to_string(), "No CST. raw str: \"\"\"\nlet x =\n\"\"\"");
}

#[test]
fn a_rule_is_found_again_by_its_name() {
    let all = [
        Rule::EOI,
        Rule::program,
        Rule::stage,
        Rule::headers,
        Rule::header_stage,
        Rule::let_stmt,
        Rule::let_inline_stmt,
        Rule::let_block_stmt,
        Rule::let_math_stmt,
        Rule::type_stmt,
        Rule::typename,
        Rule::type_expr,
        Rule::type_prod,
        Rule::type_unary,
        Rule::pattern,
        Rule::var,
        Rule::inline_cmd_name,
        Rule::block_cmd_name,
        Rule::math_cmd_name,
        Rule::cmd_expr_arg,
        Rule::cmd_expr_option,
        Rule::math_cmd_expr_arg,
        Rule::math_cmd_expr_option,
        Rule::horizontal_mode,
        Rule::vertical_mode,
        Rule::math_mode,
        Rule::string_interior,
        Rule::COMMENT,
        Rule::other,
    ];
    for rule in all {
        assert_eq!(Rule::from_name(rule.name()), rule);
        if rule != Rule::typename {
            assert_eq!(rule.name(), format!("{:?}", rule));
        }
    }
    assert_eq!(Rule::typename.name(), "type\u{5f}name");
    assert_eq!(Rule::typename.name().len(), 9);
}

#[test]
fn a_name_that_the_library_does_not_know_is_another_rule() {
    assert_eq!(Rule::from_name("expr"), Rule::other);
    assert_eq!(Rule::from_name(""), Rule::other);
    assert_eq!(Rule::from_name("Program"), Rule::other);
    assert_eq!(Rule::from_name("var "), Rule::other);
    assert_eq!(Rule::from_name("va"), Rule::other);
}

#[test]
fn texts_are_the_same_where_all_their_bytes_are() {
    assert!(text_eq("", ""));
    assert!(text_eq("\\日本", "\\日本"));
    assert!(!text_eq("\\日本", "\\日木"));
    assert!(!text_eq("abc", "abcd"));
    assert!(!text_eq("abcd", "abc"));
    assert!(!text_eq("abc", "abd"));
}
