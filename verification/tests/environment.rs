//! The names that a document defines, and where a command is defined.

use maquette_satysfi_language_server::definition::{find_keyword, get_definition_response, last_definition};
use maquette_satysfi_language_server::parser::Rule;
use maquette_satysfi_language_server::{
    Buffer, BufferCst, Cst, DocPosition, DocRange, Environment, InlineCmd, ParseError,
};
use pest::iterators::{Pairs, PairsBuilder};

/// A pair as the grammar engine gives it: its rule, its text and the pairs
/// within it.
#[derive(Debug, Clone)]
struct Shape {
    rule: Rule,
    text: String,
    inner: Vec<Shape>,
}

fn shape(rule: Rule, text: &str, inner: &[Shape]) -> Shape {
    Shape { rule, text: text.to_owned(), inner: inner.to_owned() }
}

fn locate(text: &str, node: &Shape, from: usize) -> (usize, usize) {
    let start = from + text[from..].find(&node.text).unwrap();
    (start, start + node.text.len())
}

fn add<'i>(builder: PairsBuilder<'i, Rule>, text: &'i str, node: &Shape, from: usize) -> PairsBuilder<'i, Rule> {
    let (start, end) = locate(text, node, from);
    builder.rule_with(node.rule, start, end, |inner| {
        let mut inner = inner;
        let mut at = start;
        for child in &node.inner {
            inner = add(inner, text, child, at);
            at = locate(text, child, at).1;
        }
        inner
    })
}

fn pairs_of<'i>(text: &'i str, root: &Shape) -> Pairs<'i, Rule> {
    add(PairsBuilder::new(text), text, root, 0).build()
}

fn buffer_of(text: &str, root: &Shape) -> Buffer {
    let tree = Cst::from_parse(Ok(pairs_of(text, root)));
    Buffer::new(text.to_owned(), tree)
}

fn span(from: (u32, u32), to: (u32, u32)) -> DocRange {
    DocRange::new(DocPosition::new(from.0, from.1), DocPosition::new(to.0, to.1))
}

const DEFINITIONS: &str = "let-inline \\foo = x\nlet-block ctx +bar = y\nlet x = z\n";

fn definitions() -> Shape {
    shape(
        Rule::program,
        DEFINITIONS,
        &[
            shape(
                Rule::let_inline_stmt,
                "let-inline \\foo = x",
                &[shape(Rule::inline_cmd_name, "\\foo", &[])],
            ),
            shape(
                Rule::let_block_stmt,
                "let-block ctx +bar = y",
                &[shape(Rule::var, "ctx", &[]), shape(Rule::block_cmd_name, "+bar", &[])],
            ),
            shape(
                Rule::let_stmt,
                "let x = z",
                &[shape(Rule::pattern, "x", &[shape(Rule::var, "x", &[])])],
            ),
        ],
    )
}

fn names<T>(list: &[T], name: fn(&T) -> (&String, DocRange)) -> Vec<(String, DocRange)> {
    list.iter().map(|item| { let (n, r) = name(item); (n.clone(), r) }).collect()
}

#[test]
fn each_definition_is_listed_once_with_the_range_of_its_name() {
    let buf = buffer_of(DEFINITIONS, &definitions());
    assert!(buf.error.is_empty());
    assert_eq!(
        names(&buf.env.inline_cmds, |c| (&c.name, c.def_range)),
        vec![("\\foo".to_owned(), span((0, 11), (0, 15)))]
    );
    assert_eq!(
        names(&buf.env.block_cmds, |c| (&c.name, c.def_range)),
        vec![("+bar".to_owned(), span((1, 14), (1, 18)))]
    );
    assert!(buf.env.math_cmds.is_empty());
    assert_eq!(
        names(&buf.env.variables, |c| (&c.name, c.def_range)),
        vec![("x".to_owned(), span((2, 4), (2, 5)))]
    );
}

#[test]
fn an_inline_command_with_a_context_is_named_by_its_second_child() {
    let text = "let-inline ctx \\bold it = it\nlet-block +p = q\n";
    let root = shape(
        Rule::program,
        text,
        &[
            shape(
                Rule::let_inline_stmt,
                "let-inline ctx \\bold it = it",
                &[
                    shape(Rule::var, "ctx", &[]),
                    shape(Rule::inline_cmd_name, "\\bold", &[]),
                    shape(Rule::var, "it", &[]),
                ],
            ),
            shape(Rule::let_block_stmt, "let-block +p = q", &[shape(Rule::block_cmd_name, "+p", &[])]),
        ],
    );
    let buf = buffer_of(text, &root);
    assert_eq!(
        names(&buf.env.inline_cmds, |c| (&c.name, c.def_range)),
        vec![("\\bold".to_owned(), span((0, 15), (0, 20)))]
    );
    assert_eq!(
        names(&buf.env.block_cmds, |c| (&c.name, c.def_range)),
        vec![("+p".to_owned(), span((1, 10), (1, 12)))]
    );
    assert!(buf.env.variables.is_empty());
}

#[test]
fn a_math_command_is_named_by_its_first_child() {
    let text = "let-math \\alpha = x";
    let root = shape(
        Rule::program,
        text,
        &[shape(
            Rule::let_math_stmt,
            text,
            &[shape(Rule::math_cmd_name, "\\alpha", &[]), shape(Rule::var, "x", &[])],
        )],
    );
    let buf = buffer_of(text, &root);
    assert_eq!(
        names(&buf.env.math_cmds, |c| (&c.name, c.def_range)),
        vec![("\\alpha".to_owned(), span((0, 9), (0, 15)))]
    );
}

#[test]
fn a_pattern_binds_each_of_its_variables() {
    let text = "let (a, (b, c)) = t\nlet d = u";
    let root = shape(
        Rule::program,
        text,
        &[
            shape(
                Rule::let_stmt,
                "let (a, (b, c)) = t",
                &[
                    shape(
                        Rule::pattern,
                        "(a, (b, c))",
                        &[
                            shape(Rule::var, "a", &[]),
                            shape(
                                Rule::pattern,
                                "(b, c)",
                                &[shape(Rule::var, "b", &[]), shape(Rule::var, "c", &[])],
                            ),
                        ],
                    ),
                    shape(Rule::var, "t", &[]),
                ],
            ),
            shape(Rule::let_stmt, "let d = u", &[shape(Rule::pattern, "d", &[shape(Rule::var, "d", &[])])]),
        ],
    );
    let buf = buffer_of(text, &root);
    assert_eq!(
        names(&buf.env.variables, |c| (&c.name, c.def_range)),
        vec![
            ("a".to_owned(), span((0, 5), (0, 6))),
            ("b".to_owned(), span((0, 9), (0, 10))),
            ("c".to_owned(), span((0, 12), (0, 13))),
            ("d".to_owned(), span((1, 4), (1, 5))),
        ]
    );
}

#[test]
fn a_statement_without_the_child_that_names_it_is_a_violation() {
    let text = "let-inline\nlet\nlet-math";
    for bare in [Rule::let_inline_stmt, Rule::let_block_stmt, Rule::let_math_stmt, Rule::let_stmt] {
        let root = shape(Rule::program, text, &[shape(bare, "let", &[])]);
        let buf = buffer_of(text, &root);
        assert_eq!(buf.error.len(), 1);
        assert!(matches!(buf.error[0], ParseError::InvariantViolation));
        assert!(buf.buf_cst.cst().is_none());
        assert!(buf.env.inline_cmds.is_empty() && buf.env.block_cmds.is_empty());
        assert!(buf.env.variables.is_empty() && buf.env.math_cmds.is_empty());
    }
}

#[test]
fn a_command_with_a_context_and_no_name_is_a_violation() {
    let text = "let-inline ctx";
    let root = shape(
        Rule::program,
        text,
        &[shape(Rule::let_inline_stmt, text, &[shape(Rule::var, "ctx", &[])])],
    );
    let buf = buffer_of(text, &root);
    assert!(matches!(buf.error[0], ParseError::InvariantViolation));
    assert!(buf.buf_cst.cst().is_none());
    let named = shape(
        Rule::program,
        text,
        &[shape(Rule::let_inline_stmt, text, &[shape(Rule::inline_cmd_name, "ctx", &[])])],
    );
    assert!(buffer_of(text, &named).error.is_empty());
    let tree = Cst::from_parse(Ok(pairs_of(text, &root))).unwrap();
    assert!(!tree.names_its_definitions());
    assert!(tree.inner[0].inner[0].names_its_definitions());
}

#[test]
fn a_pattern_that_is_a_variable_binds_that_variable() {
    let text = "let x = y";
    let root = shape(
        Rule::program,
        text,
        &[shape(Rule::let_stmt, text, &[shape(Rule::var, "x", &[]), shape(Rule::var, "y", &[])])],
    );
    let buf = buffer_of(text, &root);
    assert!(buf.error.is_empty());
    assert_eq!(
        names(&buf.env.variables, |c| (&c.name, c.def_range)),
        vec![("x".to_owned(), span((0, 4), (0, 5)))]
    );
}

#[test]
fn a_variable_with_variables_below_it_comes_before_them() {
    let text = "let xs = z";
    let root = shape(
        Rule::program,
        text,
        &[shape(
            Rule::let_stmt,
            text,
            &[shape(Rule::var, "xs", &[shape(Rule::var, "s", &[])]), shape(Rule::var, "z", &[])],
        )],
    );
    let buf = buffer_of(text, &root);
    assert_eq!(
        names(&buf.env.variables, |c| (&c.name, c.def_range)),
        vec![("xs".to_owned(), span((0, 4), (0, 6))), ("s".to_owned(), span((0, 5), (0, 6)))]
    );
}

#[test]
fn each_statement_gives_one_command() {
    let buf = buffer_of(DEFINITIONS, &definitions());
    let cst = buf.buf_cst.cst().unwrap();
    assert_eq!(buf.env.inline_cmds.len(), cst.pickup(Rule::let_inline_stmt).len());
    assert_eq!(buf.env.block_cmds.len(), cst.pickup(Rule::let_block_stmt).len());
    assert_eq!(buf.env.math_cmds.len(), cst.pickup(Rule::let_math_stmt).len());
    let twice = buffer_of(TWICE, &twice());
    assert_eq!(twice.env.inline_cmds.len(), 2);
    assert_eq!(twice.buf_cst.cst().unwrap().pickup(Rule::let_inline_stmt).len(), 2);
}

#[test]
fn names_keep_the_text_of_the_source_where_bytes_and_characters_differ() {
    let text = "% あ\nlet-inline \\日本 = x";
    let root = shape(
        Rule::program,
        text,
        &[shape(
            Rule::let_inline_stmt,
            "let-inline \\日本 = x",
            &[shape(Rule::inline_cmd_name, "\\日本", &[])],
        )],
    );
    let buf = buffer_of(text, &root);
    assert_eq!(
        names(&buf.env.inline_cmds, |c| (&c.name, c.def_range)),
        vec![("\\日本".to_owned(), span((1, 11), (1, 14)))]
    );
}

const TWICE: &str = "let-inline \\foo = a\nlet-inline \\foo = b\n{\\foo;}";

fn twice() -> Shape {
    shape(
        Rule::program,
        TWICE,
        &[
            shape(
                Rule::let_inline_stmt,
                "let-inline \\foo = a",
                &[shape(Rule::inline_cmd_name, "\\foo", &[])],
            ),
            shape(
                Rule::let_inline_stmt,
                "let-inline \\foo = b",
                &[shape(Rule::inline_cmd_name, "\\foo", &[])],
            ),
            shape(Rule::horizontal_mode, "{\\foo;}", &[shape(Rule::inline_cmd_name, "\\foo", &[])]),
        ],
    )
}

#[test]
fn two_definitions_of_a_name_both_appear_in_document_order() {
    let buf = buffer_of(TWICE, &twice());
    assert_eq!(
        names(&buf.env.inline_cmds, |c| (&c.name, c.def_range)),
        vec![
            ("\\foo".to_owned(), span((0, 11), (0, 15))),
            ("\\foo".to_owned(), span((1, 11), (1, 15))),
        ]
    );
}

#[test]
fn the_last_definition_of_a_name_is_the_one_that_is_found() {
    let buf = buffer_of(TWICE, &twice());
    assert_eq!(
        last_definition(&buf.env.inline_cmds, "\\foo"),
        Some(span((1, 11), (1, 15)))
    );
    assert_eq!(last_definition(&buf.env.inline_cmds, "\\bar"), None);
    assert_eq!(last_definition(&Vec::<InlineCmd>::new(), "\\foo"), None);
    // the use of the command, on the third line
    assert_eq!(
        get_definition_response(&buf, &DocPosition::new(2, 3)),
        Some(span((1, 11), (1, 15)))
    );
    // a definition is itself a use of the name
    assert_eq!(
        get_definition_response(&buf, &DocPosition::new(0, 12)),
        Some(span((1, 11), (1, 15)))
    );
}

#[test]
fn no_definition_where_no_command_name_is_under_the_cursor() {
    let buf = buffer_of(TWICE, &twice());
    assert_eq!(get_definition_response(&buf, &DocPosition::new(0, 2)), None);
    assert_eq!(get_definition_response(&buf, &DocPosition::new(2, 0)), None);
    assert_eq!(get_definition_response(&buf, &DocPosition::new(9, 0)), None);
}

#[test]
fn a_command_is_looked_up_among_those_of_its_kind() {
    let text = "let-inline \\a = x\nlet-math \\a = y\nlet-block +a = z\n${\\a}'<+a;>";
    let root = shape(
        Rule::program,
        text,
        &[
            shape(Rule::let_inline_stmt, "let-inline \\a = x", &[shape(Rule::inline_cmd_name, "\\a", &[])]),
            shape(Rule::let_math_stmt, "let-math \\a = y", &[shape(Rule::math_cmd_name, "\\a", &[])]),
            shape(Rule::let_block_stmt, "let-block +a = z", &[shape(Rule::block_cmd_name, "+a", &[])]),
            shape(Rule::math_mode, "${\\a}", &[shape(Rule::math_cmd_name, "\\a", &[])]),
            shape(Rule::vertical_mode, "'<+a;>", &[shape(Rule::block_cmd_name, "+a", &[])]),
        ],
    );
    let buf = buffer_of(text, &root);
    assert_eq!(get_definition_response(&buf, &DocPosition::new(3, 3)), Some(span((1, 9), (1, 11))));
    assert_eq!(get_definition_response(&buf, &DocPosition::new(3, 8)), Some(span((2, 10), (2, 12))));
    assert_eq!(get_definition_response(&buf, &DocPosition::new(0, 12)), Some(span((0, 11), (0, 13))));
}

#[test]
fn a_command_that_is_not_defined_has_no_definition() {
    let text = "{\\foo;}";
    let root = shape(
        Rule::program,
        text,
        &[shape(Rule::horizontal_mode, text, &[shape(Rule::inline_cmd_name, "\\foo", &[])])],
    );
    let buf = buffer_of(text, &root);
    let cst = buf.buf_cst.cst().unwrap();
    assert_eq!(find_keyword(cst, &DocPosition::new(0, 2)).unwrap().rule, Rule::inline_cmd_name);
    assert!(find_keyword(cst, &DocPosition::new(0, 0)).is_none());
    assert_eq!(get_definition_response(&buf, &DocPosition::new(0, 2)), None);
}

#[test]
fn a_document_that_failed_to_parse_defines_nothing() {
    let failure = pest::error::Error::<Rule>::new_from_pos(
        pest::error::ErrorVariant::CustomError { message: "unexpected".to_owned() },
        pest::Position::new("let\n  x", 6).unwrap(),
    );
    let buf = Buffer::new("let\n  x".to_owned(), Cst::from_parse(Err(failure)));
    assert!(buf.buf_cst.cst().is_none());
    assert_eq!(buf.buf_cst.buffer(), "let\n  x");
    assert!(buf.env.inline_cmds.is_empty());
    assert!(buf.env.block_cmds.is_empty());
    assert!(buf.env.math_cmds.is_empty());
    assert!(buf.env.variables.is_empty());
    assert_eq!(buf.error.len(), 1);
    match &buf.error[0] {
        ParseError::GrammarEngineFailure(failure) => {
            assert_eq!(failure.message, "unexpected");
            assert_eq!(failure.location, Some(span((1, 2), (1, 2))));
        }
        other => panic!("another error: {:?}", other),
    }
    assert_eq!(get_definition_response(&buf, &DocPosition::new(0, 1)), None);
}

#[test]
fn the_environment_of_a_text_without_a_tree_is_empty() {
    let (text, error) = BufferCst::parse_into("let x = 1".to_owned(), Err(ParseError::InvariantViolation));
    assert!(matches!(error, Some(ParseError::InvariantViolation)));
    let env = Environment::new(&text);
    assert!(env.inline_cmds.is_empty() && env.block_cmds.is_empty());
    assert!(env.math_cmds.is_empty() && env.variables.is_empty());
    let none = Environment::default();
    assert!(none.variables.is_empty() && none.inline_cmds.is_empty());
}
