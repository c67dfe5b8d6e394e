//! Grammar rule kinds and the lexical modes they imply.

use vstd::prelude::*;
use vstd::string::*;
use vstd::utf8::*;

pub mod document;
pub mod relation;

pub use crate::buffer::BufferCst;
pub use crate::cst::Cst;
pub use crate::grammar::span_to_range;
pub use crate::parser::document::{DocumentTree, Search};
pub use crate::parser::relation::CompareRange;
pub use crate::position::{CstPosition, CstRange};

verus! {

/// The kinds of grammar rule that a syntax node can stand for.
#[allow(non_camel_case_types)]
#[derive(Clone, Copy, Debug, PartialEq, Eq, PartialOrd, Ord, Hash, Structural)]
pub enum Rule {
    /// End of input.
    EOI,
    /// A whole document.
    program,
    /// The stage number of a header.
    stage,
    /// The header section.
    headers,
    /// The header line that declares the stage.
    header_stage,
    /// A `let` statement that binds a pattern.
    let_stmt,
    /// A statement that defines an inline command.
    let_inline_stmt,
    /// A statement that defines a block command.
    let_block_stmt,
    /// A statement that defines a math command.
    let_math_stmt,
    /// A type definition.
    type_stmt,
    /// The name of a type.
    typename,
    /// A type expression.
    type_expr,
    /// A product type.
    type_prod,
    /// A type with its arguments applied.
    type_unary,
    /// The pattern that a `let` statement binds.
    pattern,
    /// A variable name.
    var,
    /// The name of an inline command.
    inline_cmd_name,
    /// The name of a block command.
    block_cmd_name,
    /// The name of a math command.
    math_cmd_name,
    /// A program-mode argument of an inline or block command.
    cmd_expr_arg,
    /// A program-mode optional argument of an inline or block command.
    cmd_expr_option,
    /// A program-mode argument of a math command.
    math_cmd_expr_arg,
    /// A program-mode optional argument of a math command.
    math_cmd_expr_option,
    /// A stretch of horizontal-mode text.
    horizontal_mode,
    /// A stretch of vertical-mode text.
    vertical_mode,
    /// A stretch of math-mode text.
    math_mode,
    /// What stands between the quotes of a string literal.
    string_interior,
    /// A comment.
    COMMENT,
    /// Any other rule of the grammar: one that no query asks for.
    other,
}

/// The lexical context of a cursor position.
#[derive(Clone, Copy, Debug, PartialEq, Eq, Structural)]
pub enum Mode {
    /// Program mode.
    Program,
    /// Vertical mode.
    Vertical,
    /// Horizontal mode.
    Horizontal,
    /// Math mode.
    Math,
    /// Inside the headers.
    Header,
    /// Inside a string literal.
    Literal,
    /// Inside a comment.
    Comment,
}

/// Whether two texts are the same.
pub fn text_eq(a: &str, b: &str) -> (r: bool)
    ensures
        r == (a@ == b@),
{
    let left = a.as_bytes();
    let right = b.as_bytes();
    proof {
        encode_utf8_decode_utf8(a@);
        encode_utf8_decode_utf8(b@);
    }
    if left.len() != right.len() {
        return false;
    }
    let mut i: usize = 0;
    while i < left.len()
        invariant
            i <= left.len(),
            left.len() == right.len(),
            left@ == encode_utf8(a@),
            right@ == encode_utf8(b@),
            forall|j: int| 0 <= j < i ==> left@[j] == right@[j],
        decreases left.len() - i,
    {
        if left[i] != right[i] {
            return false;
        }
        i += 1;
    }
    assert(left@ =~= right@);
    true
}

impl Rule {
    /// The mode that a node of this kind puts its contents in, if it decides
    /// one.
    pub open spec fn mode(self) -> Option<Mode> {
        match self {
            Rule::vertical_mode => Some(Mode::Vertical),
            Rule::horizontal_mode => Some(Mode::Horizontal),
            Rule::math_mode => Some(Mode::Math),
            Rule::headers | Rule::header_stage => Some(Mode::Header),
            Rule::COMMENT => Some(Mode::Comment),
            Rule::string_interior => Some(Mode::Literal),
            Rule::cmd_expr_arg
            | Rule::cmd_expr_option
            | Rule::math_cmd_expr_arg
            | Rule::math_cmd_expr_option => Some(Mode::Program),
            _ => None,
        }
    }

    /// The mode that a node of this kind puts its contents in, if it decides
    /// one.
    pub fn implied_mode(self) -> (mode: Option<Mode>)
        ensures
            mode == self.mode(),
    {
        match self {
            Rule::vertical_mode => Some(Mode::Vertical),
            Rule::horizontal_mode => Some(Mode::Horizontal),
            Rule::math_mode => Some(Mode::Math),
            Rule::headers | Rule::header_stage => Some(Mode::Header),
            Rule::COMMENT => Some(Mode::Comment),
            Rule::string_interior => Some(Mode::Literal),
            Rule::cmd_expr_arg
            | Rule::cmd_expr_option
            | Rule::math_cmd_expr_arg
            | Rule::math_cmd_expr_option => Some(Mode::Program),
            _ => None,
        }
    }

    /// The name of the rule, as the grammar writes it.
    pub open spec fn name_text(self) -> Seq<char> {
        match self {
            Rule::EOI => "EOI"@,
            Rule::program => "program"@,
            Rule::stage => "stage"@,
            Rule::headers => "headers"@,
            Rule::header_stage => "header_stage"@,
            Rule::let_stmt => "let_stmt"@,
            Rule::let_inline_stmt => "let_inline_stmt"@,
            Rule::let_block_stmt => "let_block_stmt"@,
            Rule::let_math_stmt => "let_math_stmt"@,
            Rule::type_stmt => "type_stmt"@,
            Rule::typename => "type\u{5f}name"@,
            Rule::type_expr => "type_expr"@,
            Rule::type_prod => "type_prod"@,
            Rule::type_unary => "type_unary"@,
            Rule::pattern => "pattern"@,
            Rule::var => "var"@,
            Rule::inline_cmd_name => "inline_cmd_name"@,
            Rule::block_cmd_name => "block_cmd_name"@,
            Rule::math_cmd_name => "math_cmd_name"@,
            Rule::cmd_expr_arg => "cmd_expr_arg"@,
            Rule::cmd_expr_option => "cmd_expr_option"@,
            Rule::math_cmd_expr_arg => "math_cmd_expr_arg"@,
            Rule::math_cmd_expr_option => "math_cmd_expr_option"@,
            Rule::horizontal_mode => "horizontal_mode"@,
            Rule::vertical_mode => "vertical_mode"@,
            Rule::math_mode => "math_mode"@,
            Rule::string_interior => "string_interior"@,
            Rule::COMMENT => "COMMENT"@,
            Rule::other => "other"@,
        }
    }

    /// The name of the rule, as the grammar writes it.
    pub fn name(self) -> (name: &'static str)
        ensures
            name@ == self.name_text(),
    {
        match self {
            Rule::EOI => "EOI",
            Rule::program => "program",
            Rule::stage => "stage",
            Rule::headers => "headers",
            Rule::header_stage => "header_stage",
            Rule::let_stmt => "let_stmt",
            Rule::let_inline_stmt => "let_inline_stmt",
            Rule::let_block_stmt => "let_block_stmt",
            Rule::let_math_stmt => "let_math_stmt",
            Rule::type_stmt => "type_stmt",
            Rule::typename => "type\u{5f}name",
            Rule::type_expr => "type_expr",
            Rule::type_prod => "type_prod",
            Rule::type_unary => "type_unary",
            Rule::pattern => "pattern",
            Rule::var => "var",
            Rule::inline_cmd_name => "inline_cmd_name",
            Rule::block_cmd_name => "block_cmd_name",
            Rule::math_cmd_name => "math_cmd_name",
            Rule::cmd_expr_arg => "cmd_expr_arg",
            Rule::cmd_expr_option => "cmd_expr_option",
            Rule::math_cmd_expr_arg => "math_cmd_expr_arg",
            Rule::math_cmd_expr_option => "math_cmd_expr_option",
            Rule::horizontal_mode => "horizontal_mode",
            Rule::vertical_mode => "vertical_mode",
            Rule::math_mode => "math_mode",
            Rule::string_interior => "string_interior",
            Rule::COMMENT => "COMMENT",
            Rule::other => "other",
        }
    }

    /// The rule that the grammar writes as `name`; `other` for a name that
    /// is none of the names above.
    pub open spec fn named(name: Seq<char>) -> Rule {
        if name == "EOI"@ {
            Rule::EOI
        } else if name == "program"@ {
            Rule::program
        } else if name == "stage"@ {
            Rule::stage
        } else if name == "headers"@ {
            Rule::headers
        } else if name == "header_stage"@ {
            Rule::header_stage
        } else if name == "let_stmt"@ {
            Rule::let_stmt
        } else if name == "let_inline_stmt"@ {
            Rule::let_inline_stmt
        } else if name == "let_block_stmt"@ {
            Rule::let_block_stmt
        } else if name == "let_math_stmt"@ {
            Rule::let_math_stmt
        } else if name == "type_stmt"@ {
            Rule::type_stmt
        } else if name == "type\u{5f}name"@ {
            Rule::typename
        } else if name == "type_expr"@ {
            Rule::type_expr
        } else if name == "type_prod"@ {
            Rule::type_prod
        } else if name == "type_unary"@ {
            Rule::type_unary
        } else if name == "pattern"@ {
            Rule::pattern
        } else if name == "var"@ {
            Rule::var
        } else if name == "inline_cmd_name"@ {
            Rule::inline_cmd_name
        } else if name == "block_cmd_name"@ {
            Rule::block_cmd_name
        } else if name == "math_cmd_name"@ {
            Rule::math_cmd_name
        } else if name == "cmd_expr_arg"@ {
            Rule::cmd_expr_arg
        } else if name == "cmd_expr_option"@ {
            Rule::cmd_expr_option
        } else if name == "math_cmd_expr_arg"@ {
            Rule::math_cmd_expr_arg
        } else if name == "math_cmd_expr_option"@ {
            Rule::math_cmd_expr_option
        } else if name == "horizontal_mode"@ {
            Rule::horizontal_mode
        } else if name == "vertical_mode"@ {
            Rule::vertical_mode
        } else if name == "math_mode"@ {
            Rule::math_mode
        } else if name == "string_interior"@ {
            Rule::string_interior
        } else if name == "COMMENT"@ {
            Rule::COMMENT
        } else {
            Rule::other
        }
    }

    /// The rule that the grammar writes as `name`; `other` for a name that
    /// is none of the names above.
    pub fn from_name(name: &str) -> (rule: Rule)
        ensures
            rule == Rule::named(name@),
    {
        if text_eq(name, "EOI") {
            Rule::EOI
        } else if text_eq(name, "program") {
            Rule::program
        } else if text_eq(name, "stage") {
            Rule::stage
        } else if text_eq(name, "headers") {
            Rule::headers
        } else if text_eq(name, "header_stage") {
            Rule::header_stage
        } else if text_eq(name, "let_stmt") {
            Rule::let_stmt
        } else if text_eq(name, "let_inline_stmt") {
            Rule::let_inline_stmt
        } else if text_eq(name, "let_block_stmt") {
            Rule::let_block_stmt
        } else if text_eq(name, "let_math_stmt") {
            Rule::let_math_stmt
        } else if text_eq(name, "type_stmt") {
            Rule::type_stmt
        } else if text_eq(name, "type\u{5f}name") {
            Rule::typename
        } else if text_eq(name, "type_expr") {
            Rule::type_expr
        } else if text_eq(name, "type_prod") {
            Rule::type_prod
        } else if text_eq(name, "type_unary") {
            Rule::type_unary
        } else if text_eq(name, "pattern") {
            Rule::pattern
        } else if text_eq(name, "var") {
            Rule::var
        } else if text_eq(name, "inline_cmd_name") {
            Rule::inline_cmd_name
        } else if text_eq(name, "block_cmd_name") {
            Rule::block_cmd_name
        } else if text_eq(name, "math_cmd_name") {
            Rule::math_cmd_name
        } else if text_eq(name, "cmd_expr_arg") {
            Rule::cmd_expr_arg
        } else if text_eq(name, "cmd_expr_option") {
            Rule::cmd_expr_option
        } else if text_eq(name, "math_cmd_expr_arg") {
            Rule::math_cmd_expr_arg
        } else if text_eq(name, "math_cmd_expr_option") {
            Rule::math_cmd_expr_option
        } else if text_eq(name, "horizontal_mode") {
            Rule::horizontal_mode
        } else if text_eq(name, "vertical_mode") {
            Rule::vertical_mode
        } else if text_eq(name, "math_mode") {
            Rule::math_mode
        } else if text_eq(name, "string_interior") {
            Rule::string_interior
        } else if text_eq(name, "COMMENT") {
            Rule::COMMENT
        } else {
            Rule::other
        }
    }

    /// Whether a node of this kind is the name of a command.
    pub open spec fn is_cmd_name(self) -> bool {
        self == Rule::math_cmd_name || self == Rule::inline_cmd_name || self == Rule::block_cmd_name
    }
}

impl Mode {
    /// The mode at a cursor, given the kinds of the nodes around it from the
    /// innermost outwards: the mode of the first kind that decides one, and
    /// program mode where none does.
    pub open spec fn of_chain(chain: Seq<Rule>) -> Mode
        decreases chain.len(),
    {
        if chain.len() == 0 {
            Mode::Program
        } else {
            match chain[0].mode() {
                Some(mode) => mode,
                None => Mode::of_chain(chain.drop_first()),
            }
        }
    }

    /// The mode at a cursor, given the kinds of the nodes around it from the
    /// innermost outwards.
    pub fn classify(chain: &Vec<Rule>) -> (mode: Mode)
        ensures
            mode == Mode::of_chain(chain@),
    {
        let mut i: usize = 0;
        assert(chain@.subrange(0, chain.len() as int) =~= chain@);
        while i < chain.len()
            invariant
                i <= chain.len(),
                Mode::of_chain(chain@) == Mode::of_chain(chain@.subrange(i as int, chain.len() as int)),
            decreases chain.len() - i,
        {
            let ghost rest = chain@.subrange(i as int, chain.len() as int);
            assert(rest[0] == chain[i as int]);
            assert(rest.drop_first() =~= chain@.subrange(i + 1, chain.len() as int));
            match chain[i].implied_mode() {
                Some(mode) => {
                    return mode;
                },
                None => {},
            }
            i += 1;
        }
        assert(chain@.subrange(i as int, chain.len() as int).len() == 0);
        Mode::Program
    }
}

/// Where no kind in the chain decides a mode, and so where the chain is
/// empty, the mode is program mode.
pub proof fn lemma_mode_default(chain: Seq<Rule>)
    requires
        forall|i: int| 0 <= i < chain.len() ==> (#[trigger] chain[i]).mode() is None,
    ensures
        Mode::of_chain(chain) == Mode::Program,
    decreases chain.len(),
{
    if chain.len() > 0 {
        let rest = chain.drop_first();
        assert forall|i: int| 0 <= i < rest.len() implies (#[trigger] rest[i]).mode() is None by {
            assert(rest[i] == chain[i + 1]);
        }
        lemma_mode_default(rest);
    }
}

/// The innermost kind that decides a mode decides the mode of the chain,
/// whatever lies outside it.
pub proof fn lemma_mode_innermost(chain: Seq<Rule>, k: int)
    requires
        0 <= k < chain.len(),
        chain[k].mode() is Some,
        forall|i: int| 0 <= i < k ==> (#[trigger] chain[i]).mode() is None,
    ensures
        Some(Mode::of_chain(chain)) == chain[k].mode(),
    decreases chain.len(),
{
    if k > 0 {
        let rest = chain.drop_first();
        assert(chain[0].mode() is None);
        assert(rest[k - 1] == chain[k]);
        assert forall|i: int| 0 <= i < k - 1 implies (#[trigger] rest[i]).mode() is None by {
            assert(rest[i] == chain[i + 1]);
        }
        lemma_mode_innermost(rest, k - 1);
    }
}

/// A rule is the one that is written as its name: no two rules have the
/// same name.
pub proof fn lemma_name_decides_rule(rule: Rule)
    ensures
        Rule::named(rule.name_text()) == rule,
{
    reveal_strlit("EOI");
    reveal_strlit("program");
    reveal_strlit("stage");
    reveal_strlit("headers");
    reveal_strlit("header_stage");
    reveal_strlit("let_stmt");
    reveal_strlit("let_inline_stmt");
    reveal_strlit("let_block_stmt");
    reveal_strlit("let_math_stmt");
    reveal_strlit("type_stmt");
    reveal_strlit("type\u{5f}name");
    reveal_strlit("type_expr");
    reveal_strlit("type_prod");
    reveal_strlit("type_unary");
    reveal_strlit("pattern");
    reveal_strlit("var");
    reveal_strlit("inline_cmd_name");
    reveal_strlit("block_cmd_name");
    reveal_strlit("math_cmd_name");
    reveal_strlit("cmd_expr_arg");
    reveal_strlit("cmd_expr_option");
    reveal_strlit("math_cmd_expr_arg");
    reveal_strlit("math_cmd_expr_option");
    reveal_strlit("horizontal_mode");
    reveal_strlit("vertical_mode");
    reveal_strlit("math_mode");
    reveal_strlit("string_interior");
    reveal_strlit("COMMENT");
    reveal_strlit("other");
    assert("EOI"@.len() == 3);
    assert("program"@.len() == 7);
    assert("stage"@.len() == 5);
    assert("headers"@.len() == 7);
    assert("header_stage"@.len() == 12);
    assert("let_stmt"@.len() == 8);
    assert("let_inline_stmt"@.len() == 15);
    assert("let_block_stmt"@.len() == 14);
    assert("let_math_stmt"@.len() == 13);
    assert("type_stmt"@.len() == 9);
    assert("type\u{5f}name"@.len() == 9);
    assert("type_expr"@.len() == 9);
    assert("type_prod"@.len() == 9);
    assert("type_unary"@.len() == 10);
    assert("pattern"@.len() == 7);
    assert("var"@.len() == 3);
    assert("inline_cmd_name"@.len() == 15);
    assert("block_cmd_name"@.len() == 14);
    assert("math_cmd_name"@.len() == 13);
    assert("cmd_expr_arg"@.len() == 12);
    assert("cmd_expr_option"@.len() == 15);
    assert("math_cmd_expr_arg"@.len() == 17);
    assert("math_cmd_expr_option"@.len() == 20);
    assert("horizontal_mode"@.len() == 15);
    assert("vertical_mode"@.len() == 13);
    assert("math_mode"@.len() == 9);
    assert("string_interior"@.len() == 15);
    assert("COMMENT"@.len() == 7);
    assert("other"@.len() == 5);
    assert("EOI"@[0] != "var"@[0]);
    assert("program"@[0] != "headers"@[0]);
    assert("program"@[1] != "pattern"@[1]);
    assert("program"@[0] != "COMMENT"@[0]);
    assert("stage"@[0] != "other"@[0]);
    assert("headers"@[0] != "pattern"@[0]);
    assert("headers"@[0] != "COMMENT"@[0]);
    assert("header_stage"@[0] != "cmd_expr_arg"@[0]);
    assert("let_inline_stmt"@[0] != "inline_cmd_name"@[0]);
    assert("let_inline_stmt"@[0] != "cmd_expr_option"@[0]);
    assert("let_inline_stmt"@[0] != "horizontal_mode"@[0]);
    assert("let_inline_stmt"@[0] != "string_interior"@[0]);
    assert("let_block_stmt"@[0] != "block_cmd_name"@[0]);
    assert("let_math_stmt"@[0] != "math_cmd_name"@[0]);
    assert("let_math_stmt"@[0] != "vertical_mode"@[0]);
    assert("type_stmt"@[5] != "type\u{5f}name"@[5]);
    assert("type_stmt"@[5] != "type_expr"@[5]);
    assert("type_stmt"@[5] != "type_prod"@[5]);
    assert("type_stmt"@[0] != "math_mode"@[0]);
    assert("type\u{5f}name"@[5] != "type_expr"@[5]);
    assert("type\u{5f}name"@[5] != "type_prod"@[5]);
    assert("type\u{5f}name"@[0] != "math_mode"@[0]);
    assert("type_expr"@[5] != "type_prod"@[5]);
    assert("type_expr"@[0] != "math_mode"@[0]);
    assert("type_prod"@[0] != "math_mode"@[0]);
    assert("pattern"@[0] != "COMMENT"@[0]);
    assert("inline_cmd_name"@[0] != "cmd_expr_option"@[0]);
    assert("inline_cmd_name"@[0] != "horizontal_mode"@[0]);
    assert("inline_cmd_name"@[0] != "string_interior"@[0]);
    assert("math_cmd_name"@[0] != "vertical_mode"@[0]);
    assert("cmd_expr_option"@[0] != "horizontal_mode"@[0]);
    assert("cmd_expr_option"@[0] != "string_interior"@[0]);
    assert("horizontal_mode"@[0] != "string_interior"@[0]);
}

} // verus!
