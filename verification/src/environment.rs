//! The names that a document defines.
//!
//! The environment of a document lists, kind by kind and in document order,
//! the commands and variables that its statements define, each with the
//! range of the token that names it. A name that is defined twice is listed
//! twice.

use vstd::prelude::*;
use vstd::string::*;
use crate::buffer::{fits, node_fits, text_between, BufferCst};
use crate::cst::{of_kind, views, Cst, Tree};
use crate::parser::Rule;
use crate::position::DocRange;

verus! {

/// A name and the place where it is defined, as a mathematical value.
pub struct Binding {
    /// The name, as it stands in the text.
    pub name: Seq<char>,
    /// The range of the token that names it.
    pub def_range: DocRange,
}

/// An inline command.
#[derive(Debug)]
pub struct InlineCmd {
    /// The name of the command.
    pub name: String,
    /// Where it is defined.
    pub def_range: DocRange,
}

/// A block command.
#[derive(Debug)]
pub struct BlockCmd {
    /// The name of the command.
    pub name: String,
    /// Where it is defined.
    pub def_range: DocRange,
}

/// A math command.
#[derive(Debug)]
pub struct MathCmd {
    /// The name of the command.
    pub name: String,
    /// Where it is defined.
    pub def_range: DocRange,
}

/// A variable.
#[derive(Debug)]
pub struct Variable {
    /// The name of the variable.
    pub name: String,
    /// Where it is defined.
    pub def_range: DocRange,
}

/// Something that a document defines under a name.
pub trait Defined: Sized {
    /// The name and the place of the definition.
    spec fn binding(&self) -> Binding;

    /// What is defined under `name` at `def_range`.
    fn define(name: String, def_range: DocRange) -> (made: Self)
        ensures
            made.binding() == (Binding { name: name@, def_range }),
    ;

    /// The name.
    fn name(&self) -> (name: &String)
        ensures
            name@ == self.binding().name,
    ;

    /// Where it is defined.
    fn def_range(&self) -> (range: DocRange)
        ensures
            range == self.binding().def_range,
    ;
}

impl Defined for InlineCmd {
    open spec fn binding(&self) -> Binding {
        Binding { name: self.name@, def_range: self.def_range }
    }

    fn define(name: String, def_range: DocRange) -> (made: Self) {
        InlineCmd { name, def_range }
    }

    fn name(&self) -> (name: &String) {
        &self.name
    }

    fn def_range(&self) -> (range: DocRange) {
        self.def_range
    }
}

impl Defined for BlockCmd {
    open spec fn binding(&self) -> Binding {
        Binding { name: self.name@, def_range: self.def_range }
    }

    fn define(name: String, def_range: DocRange) -> (made: Self) {
        BlockCmd { name, def_range }
    }

    fn name(&self) -> (name: &String) {
        &self.name
    }

    fn def_range(&self) -> (range: DocRange) {
        self.def_range
    }
}

impl Defined for MathCmd {
    open spec fn binding(&self) -> Binding {
        Binding { name: self.name@, def_range: self.def_range }
    }

    fn define(name: String, def_range: DocRange) -> (made: Self) {
        MathCmd { name, def_range }
    }

    fn name(&self) -> (name: &String) {
        &self.name
    }

    fn def_range(&self) -> (range: DocRange) {
        self.def_range
    }
}

impl Defined for Variable {
    open spec fn binding(&self) -> Binding {
        Binding { name: self.name@, def_range: self.def_range }
    }

    fn define(name: String, def_range: DocRange) -> (made: Self) {
        Variable { name, def_range }
    }

    fn name(&self) -> (name: &String) {
        &self.name
    }

    fn def_range(&self) -> (range: DocRange) {
        self.def_range
    }
}

/// The names and places of a list of definitions.
pub open spec fn bindings<T: Defined>(list: Seq<T>) -> Seq<Binding> {
    list.map_values(|c: T| c.binding())
}

/// The commands and variables that a document defines.
#[derive(Debug)]
pub struct Environment {
    /// The inline commands, in document order.
    pub inline_cmds: Vec<InlineCmd>,
    /// The block commands, in document order.
    pub block_cmds: Vec<BlockCmd>,
    /// The math commands, in document order.
    pub math_cmds: Vec<MathCmd>,
    /// The variables that `let` statements bind, in document order.
    pub variables: Vec<Variable>,
}

/// An environment as a mathematical value.
pub struct Bindings {
    /// The inline commands, in document order.
    pub inline_cmds: Seq<Binding>,
    /// The block commands, in document order.
    pub block_cmds: Seq<Binding>,
    /// The math commands, in document order.
    pub math_cmds: Seq<Binding>,
    /// The variables, in document order.
    pub variables: Seq<Binding>,
}

impl View for Environment {
    type V = Bindings;

    open spec fn view(&self) -> Bindings {
        Bindings {
            inline_cmds: bindings(self.inline_cmds@),
            block_cmds: bindings(self.block_cmds@),
            math_cmds: bindings(self.math_cmds@),
            variables: bindings(self.variables@),
        }
    }
}

impl Tree {
    /// The token that names what a statement defines. Where a kind of name
    /// token is given, it is the first child if that is of this kind, and
    /// the second child otherwise: the first is then the context parameter.
    /// Where none is given, it is the first child.
    pub open spec fn name_token(self, name_rule: Option<Rule>) -> Option<Tree> {
        match name_rule {
            Some(rule) => if self.children.len() >= 1 && self.children[0].rule == rule {
                Some(self.children[0])
            } else if self.children.len() >= 2 {
                Some(self.children[1])
            } else {
                None
            },
            None => if self.children.len() >= 1 {
                Some(self.children[0])
            } else {
                None
            },
        }
    }

    /// The variable tokens of the pattern of a `let` statement, in document
    /// order: its first child where that is itself a variable token, then
    /// those below its first child.
    pub open spec fn pattern_vars(self) -> Seq<Tree> {
        if self.children.len() >= 1 {
            let pattern = self.children[0];
            (if pattern.rule == Rule::var {
                seq![pattern]
            } else {
                Seq::empty()
            }) + pattern.pickup(Rule::var)
        } else {
            Seq::empty()
        }
    }

    /// The name token of a statement is of the kind asked for exactly where
    /// the first child is of that kind, or else the second child is.
    pub proof fn lemma_name_token_kind(self, rule: Rule)
        ensures
            self.name_token(Some(rule)) matches Some(token) ==> (token.rule == rule <==> (
            self.children[0].rule == rule || (self.children.len() >= 2 && self.children[1].rule
                == rule))),
    {
    }

    /// Whether a node that is a statement defining something has the child
    /// that names it: an inline or block command its name token, a math
    /// command and a `let` a first child. It holds of every other node.
    pub open spec fn names_what_it_defines(self) -> bool {
        if self.rule == Rule::let_inline_stmt {
            self.name_token(Some(Rule::inline_cmd_name)) is Some
        } else if self.rule == Rule::let_block_stmt {
            self.name_token(Some(Rule::block_cmd_name)) is Some
        } else if self.rule == Rule::let_math_stmt || self.rule == Rule::let_stmt {
            self.children.len() >= 1
        } else {
            true
        }
    }
}

/// The test for a node that, where it is a statement defining something,
/// has the child that names it.
pub open spec fn node_named() -> spec_fn(Tree) -> bool {
    |t: Tree| t.names_what_it_defines()
}

/// The binding that a name token makes: its text and its range.
pub open spec fn binding_of(token: Tree, bytes: Seq<u8>) -> Binding {
    Binding { name: text_between(bytes, token.range), def_range: token.range.range() }
}

/// The bindings that name tokens make, one for each.
pub open spec fn bindings_of(tokens: Seq<Tree>, bytes: Seq<u8>) -> Seq<Binding> {
    tokens.map_values(|t: Tree| binding_of(t, bytes))
}

/// The bindings of command definitions: one for each statement that has a
/// name token, in the order of the statements.
pub open spec fn cmd_bindings(stmts: Seq<Tree>, name_rule: Option<Rule>, bytes: Seq<u8>) -> Seq<
    Binding,
>
    decreases stmts.len(),
{
    if stmts.len() == 0 {
        Seq::empty()
    } else {
        let before = cmd_bindings(stmts.drop_last(), name_rule, bytes);
        match stmts.last().name_token(name_rule) {
            Some(token) => before.push(binding_of(token, bytes)),
            None => before,
        }
    }
}

/// The bindings of `let` statements: one for each variable token of each
/// pattern, in the order of the statements and, within one, of the tokens.
pub open spec fn var_bindings(stmts: Seq<Tree>, bytes: Seq<u8>) -> Seq<Binding>
    decreases stmts.len(),
{
    if stmts.len() == 0 {
        Seq::empty()
    } else {
        var_bindings(stmts.drop_last(), bytes) + bindings_of(stmts.last().pattern_vars(), bytes)
    }
}

/// The environment of a document with the given tree, if it has one, and
/// the given text.
pub open spec fn environment_of(tree: Option<Tree>, bytes: Seq<u8>) -> Bindings {
    match tree {
        Some(root) => Bindings {
            inline_cmds: cmd_bindings(
                root.pickup(Rule::let_inline_stmt),
                Some(Rule::inline_cmd_name),
                bytes,
            ),
            block_cmds: cmd_bindings(
                root.pickup(Rule::let_block_stmt),
                Some(Rule::block_cmd_name),
                bytes,
            ),
            math_cmds: cmd_bindings(root.pickup(Rule::let_math_stmt), None, bytes),
            variables: var_bindings(root.pickup(Rule::let_stmt), bytes),
        },
        None => Bindings {
            inline_cmds: Seq::empty(),
            block_cmds: Seq::empty(),
            math_cmds: Seq::empty(),
            variables: Seq::empty(),
        },
    }
}

/// The bindings that a list of names and ranges stands for.
pub open spec fn entry_views(entries: Seq<(String, DocRange)>) -> Seq<Binding> {
    entries.map_values(|e: (String, DocRange)| Binding { name: e.0@, def_range: e.1 })
}

/// The token that names what a statement defines.
fn name_token_of(stmt: &Cst, name_rule: Option<Rule>) -> (r: Option<&Cst>)
    ensures
        match r {
            Some(token) => stmt@.name_token(name_rule) == Some(token@),
            None => stmt@.name_token(name_rule) is None,
        },
{
    proof {
        stmt.lemma_view();
    }
    match name_rule {
        Some(rule) => {
            if stmt.inner.len() >= 1 {
                proof {
                    stmt.inner[0].lemma_view();
                }
            }
            if stmt.inner.len() >= 1 && stmt.inner[0].rule == rule {
                Some(&stmt.inner[0])
            } else if stmt.inner.len() >= 2 {
                Some(&stmt.inner[1])
            } else {
                None
            }
        },
        None => {
            if stmt.inner.len() >= 1 {
                Some(&stmt.inner[0])
            } else {
                None
            }
        },
    }
}

/// The name and the range of a name token.
fn entry_of(text: &str, token: &Cst) -> (entry: (String, DocRange))
    requires
        fits(token.range, text.spec_bytes()),
    ensures
        (Binding { name: entry.0@, def_range: entry.1 }) == binding_of(token@, text.spec_bytes()),
{
    proof {
        token.lemma_view();
    }
    (token.as_str(text).to_owned(), token.range.into())
}

/// The names and ranges that the statements of kind `stmt_rule` define.
fn command_entries(text: &str, root: &Cst, stmt_rule: Rule, name_rule: Option<Rule>) -> (entries:
    Vec<(String, DocRange)>)
    requires
        root@.all(node_fits(text.spec_bytes())),
    ensures
        entry_views(entries@) == cmd_bindings(root@.pickup(stmt_rule), name_rule, text.spec_bytes()),
{
    let ghost bytes = text.spec_bytes();
    let stmts = root.pickup(stmt_rule);
    let ghost found = views(stmts@);
    proof {
        root@.lemma_all_pickup(node_fits(bytes), stmt_rule);
    }
    let mut entries: Vec<(String, DocRange)> = Vec::new();
    let mut i: usize = 0;
    assert(entry_views(entries@) =~= Seq::<Binding>::empty());
    assert(found.subrange(0, 0) =~= Seq::<Tree>::empty());
    while i < stmts.len()
        invariant
            i <= stmts.len(),
            bytes == text.spec_bytes(),
            found == views(stmts@),
            forall|k: int| 0 <= k < found.len() ==> (#[trigger] found[k]).all(node_fits(bytes)),
            entry_views(entries@) == cmd_bindings(found.subrange(0, i as int), name_rule, bytes),
        decreases stmts.len() - i,
    {
        let stmt = stmts[i];
        let ghost upto = found.subrange(0, i + 1);
        proof {
            assert(upto.drop_last() =~= found.subrange(0, i as int));
            assert(upto.last() == stmt@);
            assert(found[i as int].all(node_fits(bytes)));
        }
        match name_token_of(stmt, name_rule) {
            Some(token) => {
                proof {
                    stmt.lemma_view();
                    let t = stmt@.name_token(name_rule).unwrap();
                    assert(t.all(node_fits(bytes)));
                }
                let ghost before = entries@;
                entries.push(entry_of(text, token));
                assert(entry_views(entries@) =~= entry_views(before).push(binding_of(token@, bytes)));
            },
            None => {},
        }
        i += 1;
    }
    assert(found.subrange(0, i as int) =~= found);
    entries
}

/// The names and ranges of the variables that `let` statements bind.
fn variable_entries(text: &str, root: &Cst) -> (entries: Vec<(String, DocRange)>)
    requires
        root@.all(node_fits(text.spec_bytes())),
    ensures
        entry_views(entries@) == var_bindings(root@.pickup(Rule::let_stmt), text.spec_bytes()),
{
    let ghost bytes = text.spec_bytes();
    let stmts = root.pickup(Rule::let_stmt);
    let ghost found = views(stmts@);
    proof {
        root@.lemma_all_pickup(node_fits(bytes), Rule::let_stmt);
    }
    let mut entries: Vec<(String, DocRange)> = Vec::new();
    let mut i: usize = 0;
    assert(entry_views(entries@) =~= Seq::<Binding>::empty());
    assert(found.subrange(0, 0) =~= Seq::<Tree>::empty());
    while i < stmts.len()
        invariant
            i <= stmts.len(),
            bytes == text.spec_bytes(),
            found == views(stmts@),
            forall|k: int| 0 <= k < found.len() ==> (#[trigger] found[k]).all(node_fits(bytes)),
            entry_views(entries@) == var_bindings(found.subrange(0, i as int), bytes),
        decreases stmts.len() - i,
    {
        let stmt = stmts[i];
        let ghost upto = found.subrange(0, i + 1);
        let ghost before = entries@;
        proof {
            stmt.lemma_view();
            assert(upto.drop_last() =~= found.subrange(0, i as int));
            assert(upto.last() == stmt@);
            assert(found[i as int].all(node_fits(bytes)));
            assert(bindings_of(Seq::<Tree>::empty(), bytes) =~= Seq::<Binding>::empty());
            assert(entry_views(before) + Seq::<Binding>::empty() =~= entry_views(before));
        }
        if stmt.inner.len() >= 1 {
            let pattern = &stmt.inner[0];
            let mut vars: Vec<&Cst> = Vec::new();
            proof {
                pattern.lemma_view();
                assert(views(vars@) =~= Seq::<Tree>::empty());
            }
            if pattern.rule == Rule::var {
                vars.push(pattern);
                assert(views(vars@) =~= seq![pattern@]);
            }
            let ghost first = vars@;
            let mut below = pattern.pickup(Rule::var);
            let ghost under = below@;
            vars.append(&mut below);
            let ghost tokens = views(vars@);
            proof {
                assert(stmt@.children[0] == pattern@);
                assert(tokens =~= views(first) + views(under));
                assert(tokens == stmt@.pattern_vars());
                assert(pattern@.all(node_fits(bytes)));
                pattern@.lemma_all_pickup(node_fits(bytes), Rule::var);
                assert forall|k: int| 0 <= k < tokens.len() implies (#[trigger] tokens[k]).all(
                    node_fits(bytes),
                ) by {
                    if k < first.len() {
                        assert(tokens[k] == pattern@);
                    } else {
                        assert(tokens[k] == pattern@.pickup(Rule::var)[k - first.len()]);
                    }
                }
                assert(tokens.subrange(0, 0) =~= Seq::<Tree>::empty());
            }
            let mut j: usize = 0;
            while j < vars.len()
                invariant
                    j <= vars.len(),
                    bytes == text.spec_bytes(),
                    tokens == views(vars@),
                    forall|k: int|
                        0 <= k < tokens.len() ==> (#[trigger] tokens[k]).all(node_fits(bytes)),
                    entry_views(entries@) == entry_views(before) + bindings_of(
                        tokens.subrange(0, j as int),
                        bytes,
                    ),
                decreases vars.len() - j,
            {
                let token = vars[j];
                let ghost sofar = entries@;
                proof {
                    assert(tokens[j as int].all(node_fits(bytes)));
                    assert(tokens[j as int] == token@);
                }
                entries.push(entry_of(text, token));
                proof {
                    assert(entry_views(entries@) =~= entry_views(sofar).push(
                        binding_of(token@, bytes),
                    ));
                    assert(bindings_of(tokens.subrange(0, j + 1), bytes) =~= bindings_of(
                        tokens.subrange(0, j as int),
                        bytes,
                    ).push(binding_of(token@, bytes)));
                }
                j += 1;
            }
            assert(tokens.subrange(0, j as int) =~= tokens);
        }
        i += 1;
    }
    assert(found.subrange(0, i as int) =~= found);
    entries
}

/// The definitions with the given names and ranges.
fn defined_of<T: Defined>(entries: &Vec<(String, DocRange)>) -> (list: Vec<T>)
    ensures
        bindings(list@) == entry_views(entries@),
{
    let mut list: Vec<T> = Vec::new();
    let mut i: usize = 0;
    while i < entries.len()
        invariant
            i <= entries.len(),
            bindings(list@) =~= entry_views(entries@.subrange(0, i as int)),
        decreases entries.len() - i,
    {
        let ghost before = list@;
        let name = entries[i].0.clone();
        let def_range = entries[i].1;
        list.push(T::define(name, def_range));
        proof {
            let made = Binding { name: entries[i as int].0@, def_range: entries[i as int].1 };
            assert(bindings(list@) =~= bindings(before).push(made));
            assert(entry_views(entries@.subrange(0, i + 1)) =~= entry_views(
                entries@.subrange(0, i as int),
            ).push(made));
        }
        i += 1;
    }
    assert(entries@.subrange(0, i as int) =~= entries@);
    list
}

impl Cst {
    /// Whether every statement of the tree that defines something has the
    /// child that names it.
    pub fn names_its_definitions(&self) -> (r: bool)
        ensures
            r == self@.all(node_named()),
        decreases self,
    {
        proof {
            self.lemma_view();
        }
        let named = match self.rule {
            Rule::let_inline_stmt => name_token_of(self, Some(Rule::inline_cmd_name)).is_some(),
            Rule::let_block_stmt => name_token_of(self, Some(Rule::block_cmd_name)).is_some(),
            Rule::let_math_stmt | Rule::let_stmt => self.inner.len() >= 1,
            _ => true,
        };
        if !named {
            return false;
        }
        let mut i: usize = 0;
        while i < self.inner.len()
            invariant
                i <= self.inner.len(),
                self@.children.len() == self.inner.len(),
                forall|j: int| 0 <= j < self.inner.len() ==> #[trigger] self@.children[j] == self.inner[j]@,
                forall|j: int| 0 <= j < i ==> (#[trigger] self@.children[j]).all(node_named()),
            decreases self.inner.len() - i,
        {
            if !self.inner[i].names_its_definitions() {
                assert(!self@.children[i as int].all(node_named()));
                return false;
            }
            i += 1;
        }
        true
    }
}

/// Where every statement has its name token, there is one binding for each
/// statement, in their order: that of its name token.
pub proof fn lemma_cmd_bindings_full(stmts: Seq<Tree>, name_rule: Option<Rule>, bytes: Seq<u8>)
    requires
        forall|k: int| 0 <= k < stmts.len() ==> (#[trigger] stmts[k]).name_token(name_rule) is Some,
    ensures
        cmd_bindings(stmts, name_rule, bytes).len() == stmts.len(),
        forall|k: int|
            0 <= k < stmts.len() ==> #[trigger] cmd_bindings(stmts, name_rule, bytes)[k] == binding_of(
                stmts[k].name_token(name_rule).unwrap(),
                bytes,
            ),
    decreases stmts.len(),
{
    if stmts.len() > 0 {
        let before = stmts.drop_last();
        assert forall|k: int| 0 <= k < before.len() implies (#[trigger] before[k]).name_token(
            name_rule,
        ) is Some by {
            assert(before[k] == stmts[k]);
        }
        lemma_cmd_bindings_full(before, name_rule, bytes);
        assert(stmts.last() == stmts[stmts.len() - 1]);
        assert forall|k: int| 0 <= k < stmts.len() implies #[trigger] cmd_bindings(
            stmts,
            name_rule,
            bytes,
        )[k] == binding_of(stmts[k].name_token(name_rule).unwrap(), bytes) by {
            if k < before.len() {
                assert(before[k] == stmts[k]);
                assert(cmd_bindings(stmts, name_rule, bytes)[k] == cmd_bindings(
                    before,
                    name_rule,
                    bytes,
                )[k]);
            }
        }
    }
}

/// Whether a binding is the text and the range of a variable token below
/// `root`.
pub open spec fn binds_variable(root: Tree, binding: Binding, bytes: Seq<u8>) -> bool {
    exists|token: Tree|
        token.rule == Rule::var && root.below(token) && binding == #[trigger] binding_of(token, bytes)
}

/// Every variable that `let` statements below `root` bind is the text and
/// the range of a variable token below `root`.
pub proof fn lemma_var_bindings_tokens(root: Tree, stmts: Seq<Tree>, bytes: Seq<u8>)
    requires
        forall|j: int| 0 <= j < stmts.len() ==> root.below(#[trigger] stmts[j]),
    ensures
        forall|k: int|
            0 <= k < var_bindings(stmts, bytes).len() ==> binds_variable(
                root,
                #[trigger] var_bindings(stmts, bytes)[k],
                bytes,
            ),
    decreases stmts.len(),
{
    if stmts.len() > 0 {
        let earlier = stmts.drop_last();
        let before = var_bindings(earlier, bytes);
        let stmt = stmts.last();
        let tokens = stmt.pattern_vars();
        let all = var_bindings(stmts, bytes);
        assert forall|j: int| 0 <= j < earlier.len() implies root.below(#[trigger] earlier[j]) by {
            assert(earlier[j] == stmts[j]);
        }
        lemma_var_bindings_tokens(root, earlier, bytes);
        assert(all == before + bindings_of(tokens, bytes));
        assert(root.below(stmts[stmts.len() - 1]));
        assert forall|k: int| 0 <= k < all.len() implies binds_variable(root, #[trigger] all[k], bytes) by {
            if k >= before.len() {
                let j = k - before.len();
                let token = tokens[j];
                let pattern = stmt.children[0];
                let first = if pattern.rule == Rule::var {
                    seq![pattern]
                } else {
                    Seq::<Tree>::empty()
                };
                assert(tokens == first + pattern.pickup(Rule::var));
                stmt.lemma_child_below(0);
                if j >= first.len() {
                    pattern.lemma_pickup_below(Rule::var, j - first.len());
                    assert(token == pattern.pickup(Rule::var)[j - first.len()]);
                    assert(stmt.below(token));
                } else {
                    assert(token == pattern);
                }
                root.lemma_below_below(stmt, token);
                assert(token.rule == Rule::var);
                assert(all[k] == binding_of(token, bytes));
            } else {
                assert(all[k] == before[k]);
            }
        }
    }
}

/// What a tree defines, where every statement that defines something has
/// the child that names it. There is one command for each statement of its
/// kind, in document order, none left out and none merged; each is the text
/// and the range of the name token of its statement, a node of the tree.
/// Each variable is the text and the range of a variable token of the tree.
pub proof fn lemma_environment_entries(root: Tree, bytes: Seq<u8>)
    requires
        root.all(node_named()),
    ensures
        ({
            let env = environment_of(Some(root), bytes);
            let inline = root.pickup(Rule::let_inline_stmt);
            let block = root.pickup(Rule::let_block_stmt);
            let math = root.pickup(Rule::let_math_stmt);
            &&& env.inline_cmds.len() == inline.len()
            &&& env.block_cmds.len() == block.len()
            &&& env.math_cmds.len() == math.len()
            &&& forall|k: int|
                0 <= k < inline.len() ==> {
                    let token = inline[k].name_token(Some(Rule::inline_cmd_name)).unwrap();
                    #[trigger] env.inline_cmds[k] == binding_of(token, bytes) && root.below(token)
                }
            &&& forall|k: int|
                0 <= k < block.len() ==> {
                    let token = block[k].name_token(Some(Rule::block_cmd_name)).unwrap();
                    #[trigger] env.block_cmds[k] == binding_of(token, bytes) && root.below(token)
                }
            &&& forall|k: int|
                0 <= k < math.len() ==> #[trigger] env.math_cmds[k] == binding_of(
                    math[k].children[0],
                    bytes,
                ) && root.below(math[k].children[0])
            &&& forall|k: int|
                0 <= k < env.variables.len() ==> binds_variable(
                    root,
                    #[trigger] env.variables[k],
                    bytes,
                )
        }),
{
    let inline = root.pickup(Rule::let_inline_stmt);
    let block = root.pickup(Rule::let_block_stmt);
    let math = root.pickup(Rule::let_math_stmt);
    let lets = root.pickup(Rule::let_stmt);
    root.lemma_all_pickup(node_named(), Rule::let_inline_stmt);
    root.lemma_all_pickup(node_named(), Rule::let_block_stmt);
    root.lemma_all_pickup(node_named(), Rule::let_math_stmt);
    assert forall|k: int| 0 <= k < inline.len() implies (#[trigger] inline[k]).name_token(
        Some(Rule::inline_cmd_name),
    ) is Some && root.below(inline[k].name_token(Some(Rule::inline_cmd_name)).unwrap()) by {
        assert(inline[k].all(node_named()));
        assert(inline[k].names_what_it_defines());
        lemma_name_token_below(root, Rule::let_inline_stmt, k, Some(Rule::inline_cmd_name));
    }
    assert forall|k: int| 0 <= k < block.len() implies (#[trigger] block[k]).name_token(
        Some(Rule::block_cmd_name),
    ) is Some && root.below(block[k].name_token(Some(Rule::block_cmd_name)).unwrap()) by {
        assert(block[k].all(node_named()));
        assert(block[k].names_what_it_defines());
        lemma_name_token_below(root, Rule::let_block_stmt, k, Some(Rule::block_cmd_name));
    }
    assert forall|k: int| 0 <= k < math.len() implies (#[trigger] math[k]).name_token(None) is Some
        && root.below(math[k].children[0]) by {
        assert(math[k].all(node_named()));
        assert(math[k].names_what_it_defines());
        lemma_name_token_below(root, Rule::let_math_stmt, k, None);
    }
    lemma_cmd_bindings_full(inline, Some(Rule::inline_cmd_name), bytes);
    lemma_cmd_bindings_full(block, Some(Rule::block_cmd_name), bytes);
    lemma_cmd_bindings_full(math, None, bytes);
    assert forall|j: int| 0 <= j < lets.len() implies root.below(#[trigger] lets[j]) by {
        root.lemma_pickup_below(Rule::let_stmt, j);
    }
    lemma_var_bindings_tokens(root, lets, bytes);
}

/// The name token of a statement that `pickup` finds is a node of the tree.
proof fn lemma_name_token_below(root: Tree, stmt_rule: Rule, k: int, name_rule: Option<Rule>)
    requires
        0 <= k < root.pickup(stmt_rule).len(),
        root.pickup(stmt_rule)[k].name_token(name_rule) is Some,
    ensures
        root.below(root.pickup(stmt_rule)[k].name_token(name_rule).unwrap()),
{
    let stmt = root.pickup(stmt_rule)[k];
    let token = stmt.name_token(name_rule).unwrap();
    root.lemma_pickup_below(stmt_rule, k);
    if stmt.children[0] == token {
        stmt.lemma_child_below(0);
    } else {
        stmt.lemma_child_below(1);
    }
    root.lemma_below_below(stmt, token);
}

impl Environment {
    /// The environment in which nothing is defined.
    pub fn empty() -> (env: Environment)
        ensures
            env@ == environment_of(None, Seq::empty()),
    {
        let env = Environment {
            inline_cmds: Vec::new(),
            block_cmds: Vec::new(),
            math_cmds: Vec::new(),
            variables: Vec::new(),
        };
        assert(env@.inline_cmds =~= Seq::<Binding>::empty());
        assert(env@.block_cmds =~= Seq::<Binding>::empty());
        assert(env@.math_cmds =~= Seq::<Binding>::empty());
        assert(env@.variables =~= Seq::<Binding>::empty());
        env
    }

    /// The environment of a document: what the statements of its tree
    /// define, and nothing where it has no tree. Each statement that defines
    /// a command gives one entry.
    pub fn new(text: &BufferCst) -> (env: Environment)
        ensures
            env@ == environment_of(text.tree(), text.bytes()),
            text.tree() matches Some(root) ==> {
                &&& env@.inline_cmds.len() == root.pickup(Rule::let_inline_stmt).len()
                &&& env@.block_cmds.len() == root.pickup(Rule::let_block_stmt).len()
                &&& env@.math_cmds.len() == root.pickup(Rule::let_math_stmt).len()
            },
    {
        match text.cst() {
            None => Environment::empty(),
            Some(cst) => {
                proof {
                    lemma_environment_entries(cst@, text.bytes());
                }
                let source = text.buffer();
                let inline_cmds: Vec<InlineCmd> = defined_of(
                    &command_entries(source, cst, Rule::let_inline_stmt, Some(Rule::inline_cmd_name)),
                );
                let block_cmds: Vec<BlockCmd> = defined_of(
                    &command_entries(source, cst, Rule::let_block_stmt, Some(Rule::block_cmd_name)),
                );
                let math_cmds: Vec<MathCmd> = defined_of(
                    &command_entries(source, cst, Rule::let_math_stmt, None),
                );
                let variables: Vec<Variable> = defined_of(&variable_entries(source, cst));
                Environment { inline_cmds, block_cmds, math_cmds, variables }
            },
        }
    }
}

impl Default for Environment {
    fn default() -> (env: Environment)
        ensures
            env@ == environment_of(None, Seq::empty()),
    {
        Environment::empty()
    }
}

} // verus!
