//! A parsed document as a tree to search.

use vstd::prelude::*;
use crate::cst::{views, Cst, Tree};
use crate::grammar::{read_of_parse, ParseError};
use crate::parser::{Mode, Rule};
use crate::position::DocPosition;

verus! {

/// Something in which nodes can be looked for by kind and by position.
pub trait Search {
    /// The tree that is searched, if there is one.
    spec fn searched(&self) -> Option<Tree>;

    /// The nodes of kind `rule` in document order; none where there is no
    /// tree.
    fn pickup(&self, rule: Rule) -> (found: Vec<&Cst>)
        ensures
            views(found@) == match self.searched() {
                Some(tree) => tree.pickup(rule),
                None => Seq::empty(),
            },
    ;

    /// The first child of the root whose range holds `pos`; none where no
    /// child holds it, and where there is no tree.
    fn choose_child(&self, pos: &DocPosition) -> (r: Option<&Cst>)
        ensures
            match self.searched() {
                Some(tree) => match r {
                    Some(child) => tree.chosen(*pos) is Some && child@
                        == tree.children[tree.chosen(*pos).unwrap()],
                    None => tree.chosen(*pos) is None,
                },
                None => r is None,
            },
    ;

    /// The nodes that hold `pos`, from the innermost outwards; none where
    /// there is no tree.
    fn dig(&self, pos: &DocPosition) -> (chain: Vec<&Cst>)
        ensures
            views(chain@) == match self.searched() {
                Some(tree) => tree.dig(*pos),
                None => Seq::empty(),
            },
    ;
}

impl Search for Cst {
    open spec fn searched(&self) -> Option<Tree> {
        Some(self@)
    }

    fn pickup(&self, rule: Rule) -> (found: Vec<&Cst>) {
        Cst::pickup(self, rule)
    }

    fn choose_child(&self, pos: &DocPosition) -> (r: Option<&Cst>) {
        Cst::choose_child(self, pos)
    }

    fn dig(&self, pos: &DocPosition) -> (chain: Vec<&Cst>) {
        Cst::dig(self, pos)
    }
}

/// The outcome of parsing a document: its syntax tree, or why it has none.
#[derive(Debug)]
pub struct DocumentTree {
    /// The syntax tree, or what went wrong.
    pub tree: Result<Cst, ParseError>,
}

/// No nodes.
fn no_nodes<'a>() -> (none: Vec<&'a Cst>)
    ensures
        views(none@) == Seq::<Tree>::empty(),
{
    let none: Vec<&'a Cst> = Vec::new();
    assert(views(none@) =~= Seq::<Tree>::empty());
    none
}

impl DocumentTree {
    /// The outcome of parsing with the tree of what the grammar engine
    /// answered.
    pub fn from_document(
        parsed: Result<pest::iterators::Pairs<'_, Rule>, pest::error::Error<Rule>>,
    ) -> (document: DocumentTree)
        ensures
            read_of_parse(parsed, document.tree),
    {
        DocumentTree { tree: Cst::from_parse(parsed) }
    }

    /// The mode at a position: that of the tree, and program mode where the
    /// document has no tree.
    pub fn mode(&self, pos: &DocPosition) -> (mode: Mode)
        ensures
            mode == match self.searched() {
                Some(tree) => tree.mode_at(*pos),
                None => Mode::Program,
            },
    {
        match &self.tree {
            Ok(cst) => cst.mode(pos),
            Err(_) => Mode::Program,
        }
    }
}

impl Search for DocumentTree {
    open spec fn searched(&self) -> Option<Tree> {
        match self.tree {
            Ok(cst) => Some(cst@),
            Err(_) => None,
        }
    }

    fn pickup(&self, rule: Rule) -> (found: Vec<&Cst>) {
        match &self.tree {
            Ok(cst) => cst.pickup(rule),
            Err(_) => no_nodes(),
        }
    }

    fn choose_child(&self, pos: &DocPosition) -> (r: Option<&Cst>) {
        match &self.tree {
            Ok(cst) => cst.choose_child(pos),
            Err(_) => None,
        }
    }

    fn dig(&self, pos: &DocPosition) -> (chain: Vec<&Cst>) {
        match &self.tree {
            Ok(cst) => cst.dig(pos),
            Err(_) => no_nodes(),
        }
    }
}

} // verus!
