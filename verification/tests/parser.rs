//! The owned tree of a parse mirrors the pairs of the grammar engine.

use maquette_satysfi_language_server::parser::Rule;
use maquette_satysfi_language_server::{BufferCst, Cst};
use pest::iterators::{Pairs, PairsBuilder};

#[derive(Debug, Clone)]
struct TestPair {
    rule: Rule,
    text: String,
    inner: Vec<TestPair>,
}

fn pair(rule: Rule, text: &str, inner: &[TestPair]) -> TestPair {
    TestPair {
        rule,
        text: text.to_owned(),
        inner: inner.to_owned(),
    }
}

/// Where in `text`, from byte `from` on, the text of `node` stands.
fn locate(text: &str, node: &TestPair, from: usize) -> (usize, usize) {
    let start = from + text[from..].find(&node.text).unwrap();
    (start, start + node.text.len())
}

/// Adds the pair that `node` describes, with the pairs within it.
fn add<'i>(builder: PairsBuilder<'i, Rule>, text: &'i str, node: &TestPair, from: usize) -> PairsBuilder<'i, Rule> {
    let (start, end) = locate(text, node, from);
    builder.rule_with(node.rule, start, end, |inner| {
        let mut inner = inner;
        let mut at = start;
        for child in &node.inner {
            inner = add(inner, text, child, at);
            at = locate(text, child, at).1;
        }
        inner
    })
}

/// The pairs that the grammar engine gives for `text`, as `shape` lays
/// them out.
fn pairs_of<'i>(text: &'i str, shape: &TestPair) -> Pairs<'i, Rule> {
    add(PairsBuilder::new(text), text, shape, 0).build()
}

fn assert_parsed(text: &str, test_pair: TestPair) {
    let tree = Cst::from_parse(Ok(pairs_of(text, &test_pair)));
    let (buffer, error) = BufferCst::parse_into(text.to_owned(), tree);
    assert!(error.is_none(), "Parse failed. string: \"{}\"", text);
    let cst = buffer.cst().unwrap();
    assert_equal(&buffer, cst, &test_pair).unwrap();
}

fn assert_equal(buffer: &BufferCst, cst: &Cst, test_pair: &TestPair) -> Result<(), String> {
    if cst.rule != test_pair.rule {
        return Err(format!("Expected rule {:?}, got {:?}.", test_pair.rule, cst.rule));
    }
    let text = buffer.substring(cst).unwrap();
    if text != test_pair.text {
        return Err(format!("Expected text \"{}\", got \"{}\".", test_pair.text, text));
    }
    if cst.inner.len() > test_pair.inner.len() {
        return Err(format!("Excessive element: {:?}", cst.inner[test_pair.inner.len()]));
    }
    if cst.inner.len() < test_pair.inner.len() {
        return Err(format!("Lacked element: {:?}", test_pair.inner[cst.inner.len()]));
    }
    for (actual, expect) in cst.inner.iter().zip(&test_pair.inner) {
        assert_equal(buffer, actual, expect)?;
    }
    Ok(())
}

#[test]
fn test_header_stage() {
    assert_parsed(
        "@stage: 0\n",
        pair(
            Rule::header_stage,
            "@stage: 0\n",
            &[pair(Rule::stage, "0", &[])],
        ),
    );
}

#[test]
fn test_type_statement() {
    assert_parsed(
        "type a = int",
        pair(
            Rule::type_stmt,
            "type a = int",
            &[
                pair(Rule::typename, "a", &[pair(Rule::var, "a", &[])]),
                pair(
                    Rule::type_expr,
                    "int",
                    &[pair(
                        Rule::type_prod,
                        "int",
                        &[pair(
                            Rule::type_unary,
                            "int",
                            &[pair(Rule::typename, "int", &[pair(Rule::var, "int", &[])])],
                        )],
                    )],
                ),
            ],
        ),
    )
}
