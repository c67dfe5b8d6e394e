//! The flat form of a parse: a sequence of start and end marks.
//!
//! A grammar engine reports a parse as the marks that open and close each
//! matched rule, in document order. The marks of a tree are the start mark
//! of its root, the marks of its children from left to right, and the end
//! mark of its root. [`Cst::from_marks`] builds the tree that has the
//! given marks, and there is at most one.

use vstd::prelude::*;
use crate::cst::{Cst, Tree};
use crate::parser::Rule;
use crate::position::{CstPosition, CstRange};

verus! {

/// One end of a matched rule.
#[derive(Clone, Copy, Debug, PartialEq, Eq, Structural)]
pub enum Mark {
    /// Where a match of `rule` begins.
    Start { rule: Rule, pos: CstPosition },
    /// Where a match of `rule` ends.
    End { rule: Rule, pos: CstPosition },
}

impl Mark {
    /// Whether this is a start mark.
    pub open spec fn is_start(self) -> bool {
        self is Start
    }

    /// The rule whose match the mark opens or closes.
    pub open spec fn rule(self) -> Rule {
        match self {
            Mark::Start { rule, .. } => rule,
            Mark::End { rule, .. } => rule,
        }
    }

    /// The place where the mark stands.
    pub open spec fn pos(self) -> CstPosition {
        match self {
            Mark::Start { pos, .. } => pos,
            Mark::End { pos, .. } => pos,
        }
    }
}

/// The marks of the trees from index `from` on, one tree after the other.
pub open spec fn marks_from(trees: Seq<Tree>, from: nat) -> Seq<Mark>
    decreases trees, trees.len() - from,
{
    if from >= trees.len() {
        Seq::empty()
    } else {
        trees[from as int].marks() + marks_from(trees, from + 1)
    }
}

impl Tree {
    /// The marks of the tree: the start of the root, the marks of the
    /// children from left to right, the end of the root.
    pub open spec fn marks(self) -> Seq<Mark>
        decreases self, 0nat,
    {
        seq![Mark::Start { rule: self.rule, pos: self.range.start }] + marks_from(self.children, 0)
            + seq![Mark::End { rule: self.rule, pos: self.range.end }]
    }
}

/// Reads one tree from the marks at index `at`: the tree and the index
/// after its end mark, if a tree stands there.
spec fn decode_node(marks: Seq<Mark>, at: int) -> Option<(Tree, int)>
    decreases marks.len() - at, 0nat,
{
    if 0 <= at < marks.len() && marks[at] is Start {
        let (children, next) = decode_children(marks, at + 1);
        if at < next < marks.len() && marks[next] is End && marks[next].rule() == marks[at].rule() {
            Some(
                (
                    Tree {
                        rule: marks[at].rule(),
                        range: CstRange { start: marks[at].pos(), end: marks[next].pos() },
                        children,
                    },
                    next + 1,
                ),
            )
        } else {
            None
        }
    } else {
        None
    }
}

/// Reads as many trees as stand one after the other from index `at` on:
/// the trees and the index after the last of them.
spec fn decode_children(marks: Seq<Mark>, at: int) -> (Seq<Tree>, int)
    decreases marks.len() - at, 1nat,
{
    if 0 <= at < marks.len() && marks[at] is Start {
        match decode_node(marks, at) {
            Some((child, next)) => if at < next <= marks.len() {
                let (rest, end) = decode_children(marks, next);
                (seq![child] + rest, end)
            } else {
                (Seq::empty(), at)
            },
            None => (Seq::empty(), at),
        }
    } else {
        (Seq::empty(), at)
    }
}

/// The views of a sequence of owned nodes.
spec fn owned_views(nodes: Seq<Cst>) -> Seq<Tree> {
    nodes.map_values(|c: Cst| c@)
}

/// What `decode_node` reads ends after where it began, within the marks.
proof fn lemma_decode_node_bounds(marks: Seq<Mark>, at: int)
    ensures
        decode_node(marks, at) is Some ==> at + 1 < decode_node(marks, at).unwrap().1
            <= marks.len(),
{
}

fn mark_is_start(mark: &Mark) -> (r: bool)
    ensures
        r == mark.is_start(),
{
    match mark {
        Mark::Start { .. } => true,
        Mark::End { .. } => false,
    }
}

fn mark_rule(mark: &Mark) -> (r: Rule)
    ensures
        r == mark.rule(),
{
    match mark {
        Mark::Start { rule, .. } => *rule,
        Mark::End { rule, .. } => *rule,
    }
}

fn mark_pos(mark: &Mark) -> (r: CstPosition)
    ensures
        r == mark.pos(),
{
    match mark {
        Mark::Start { pos, .. } => *pos,
        Mark::End { pos, .. } => *pos,
    }
}

/// Reads one tree from the marks at index `at`.
fn parse_node(marks: &Vec<Mark>, at: usize) -> (r: Option<(Cst, usize)>)
    ensures
        match r {
            Some((cst, next)) => decode_node(marks@, at as int) == Some((cst@, next as int)),
            None => decode_node(marks@, at as int) is None,
        },
    decreases marks.len() - at,
{
    if at >= marks.len() || !mark_is_start(&marks[at]) {
        return None;
    }
    let rule = mark_rule(&marks[at]);
    let start = mark_pos(&marks[at]);
    let mut inner: Vec<Cst> = Vec::new();
    let mut j: usize = at + 1;
    let mut more = true;
    assert(owned_views(inner@) + decode_children(marks@, j as int).0 =~= decode_children(
        marks@,
        j as int,
    ).0);
    while more
        invariant
            at < j <= marks.len(),
            decode_children(marks@, at + 1) == (
                owned_views(inner@) + decode_children(marks@, j as int).0,
                decode_children(marks@, j as int).1,
            ),
            !more ==> decode_children(marks@, j as int) == (Seq::<Tree>::empty(), j as int),
        decreases marks.len() - j + (if more { 1int } else { 0int }),
    {
        if j < marks.len() && mark_is_start(&marks[j]) {
            match parse_node(marks, j) {
                Some((child, next)) => {
                    proof {
                        lemma_decode_node_bounds(marks@, j as int);
                        let (rest, end) = decode_children(marks@, next as int);
                        assert(decode_children(marks@, j as int) == (seq![child@] + rest, end));
                        assert(owned_views(inner@.push(child)) + rest =~= owned_views(inner@) + (
                        seq![child@] + rest));
                    }
                    inner.push(child);
                    j = next;
                },
                None => {
                    more = false;
                },
            }
        } else {
            more = false;
        }
    }
    assert(owned_views(inner@) + Seq::<Tree>::empty() =~= owned_views(inner@));
    if j < marks.len() && !mark_is_start(&marks[j]) && mark_rule(&marks[j]) == rule {
        let end = mark_pos(&marks[j]);
        let cst = Cst { rule, range: CstRange { start, end }, inner };
        proof {
            cst.lemma_view();
            assert(cst@.children =~= owned_views(cst.inner@));
        }
        Some((cst, j + 1))
    } else {
        None
    }
}

/// The marks of the trees after the first are those of the rest.
proof fn lemma_marks_from_shift(first: Tree, rest: Seq<Tree>, from: nat)
    ensures
        marks_from(seq![first] + rest, from + 1) == marks_from(rest, from),
    decreases rest.len() - from,
{
    let all = seq![first] + rest;
    if from < rest.len() {
        assert(all[from as int + 1] == rest[from as int]);
        lemma_marks_from_shift(first, rest, from + 1);
    }
}

/// What `decode_node` reads has the marks that stand where it read.
proof fn lemma_decode_node_sound(marks: Seq<Mark>, at: int)
    requires
        decode_node(marks, at) is Some,
    ensures
        at < decode_node(marks, at).unwrap().1 <= marks.len(),
        marks.subrange(at, decode_node(marks, at).unwrap().1) == decode_node(
            marks,
            at,
        ).unwrap().0.marks(),
    decreases marks.len() - at, 0nat,
{
    let (tree, end) = decode_node(marks, at).unwrap();
    let (children, next) = decode_children(marks, at + 1);
    lemma_decode_children_sound(marks, at + 1);
    assert(tree.children == children);
    assert(marks.subrange(at, end) =~= seq![marks[at]] + marks.subrange(at + 1, next)
        + seq![marks[next]]);
}

/// What `decode_children` reads has the marks that stand where it read.
proof fn lemma_decode_children_sound(marks: Seq<Mark>, at: int)
    requires
        0 <= at <= marks.len(),
    ensures
        at <= decode_children(marks, at).1 <= marks.len(),
        marks.subrange(at, decode_children(marks, at).1) == marks_from(
            decode_children(marks, at).0,
            0,
        ),
    decreases marks.len() - at, 1nat,
{
    let (trees, end) = decode_children(marks, at);
    if at < marks.len() && marks[at] is Start {
        match decode_node(marks, at) {
            Some((child, next)) => {
                lemma_decode_node_sound(marks, at);
                let rest = decode_children(marks, next).0;
                lemma_decode_children_sound(marks, next);
                lemma_marks_from_shift(child, rest, 0);
                assert(trees == seq![child] + rest);
                assert(trees[0] == child);
                assert(marks.subrange(at, end) =~= marks.subrange(at, next) + marks.subrange(
                    next,
                    end,
                ));
            },
            None => {
                assert(marks.subrange(at, at) =~= Seq::<Mark>::empty());
            },
        }
    } else {
        assert(marks.subrange(at, at) =~= Seq::<Mark>::empty());
    }
}

/// Where the marks of a tree stand, `decode_node` reads that tree.
proof fn lemma_decode_node_complete(marks: Seq<Mark>, at: int, tree: Tree)
    requires
        0 <= at,
        at + tree.marks().len() <= marks.len(),
        marks.subrange(at, at + tree.marks().len()) == tree.marks(),
    ensures
        decode_node(marks, at) == Some((tree, at + tree.marks().len())),
    decreases tree, 0nat,
{
    let body = marks_from(tree.children, 0);
    let own = tree.marks();
    let n = body.len() as int;
    let part = marks.subrange(at, at + own.len());
    assert(own.len() == body.len() + 2);
    assert(part[0] == marks[at]);
    assert(own[0] == Mark::Start { rule: tree.rule, pos: tree.range.start });
    assert(part[n + 1] == marks[at + n + 1]);
    assert(own[n + 1] == Mark::End { rule: tree.rule, pos: tree.range.end });
    assert(marks.subrange(at + 1, at + 1 + body.len()) =~= body) by {
        assert forall|k: int| 0 <= k < body.len() implies marks[at + 1 + k] == body[k] by {
            assert(part[k + 1] == marks[at + k + 1]);
            assert(own[k + 1] == body[k]);
        }
    }
    lemma_decode_children_complete(marks, at + 1, tree.children, 0);
    assert(tree.children.subrange(0, tree.children.len() as int) =~= tree.children);
}

/// Where the marks of a row of trees stand, and no start mark follows
/// them, `decode_children` reads those trees.
proof fn lemma_decode_children_complete(marks: Seq<Mark>, at: int, trees: Seq<Tree>, from: nat)
    requires
        0 <= at,
        from <= trees.len(),
        at + marks_from(trees, from).len() <= marks.len(),
        marks.subrange(at, at + marks_from(trees, from).len()) == marks_from(trees, from),
        at + marks_from(trees, from).len() == marks.len() || !(marks[at + marks_from(
            trees,
            from,
        ).len()] is Start),
    ensures
        decode_children(marks, at) == (
            trees.subrange(from as int, trees.len() as int),
            at + marks_from(trees, from).len(),
        ),
    decreases trees, trees.len() - from,
{
    let body = marks_from(trees, from);
    if from < trees.len() {
        let child = trees[from as int];
        let own = child.marks();
        let rest = marks_from(trees, from + 1);
        let part = marks.subrange(at, at + body.len());
        assert(body == own + rest);
        assert(own.len() >= 2);
        assert(own[0] is Start);
        assert(part[0] == marks[at]);
        assert(marks.subrange(at, at + own.len()) =~= own) by {
            assert forall|k: int| 0 <= k < own.len() implies marks[at + k] == own[k] by {
                assert(part[k] == marks[at + k]);
            }
        }
        lemma_decode_node_complete(marks, at, child);
        let next = at + own.len();
        assert(marks.subrange(next, next + rest.len()) =~= rest) by {
            assert forall|k: int| 0 <= k < rest.len() implies marks[next + k] == rest[k] by {
                assert(part[own.len() + k] == marks[at + own.len() + k]);
            }
        }
        lemma_decode_children_complete(marks, next, trees, from + 1);
        assert(seq![child] + trees.subrange(from as int + 1, trees.len() as int) =~= trees.subrange(
            from as int,
            trees.len() as int,
        ));
    } else {
        assert(trees.subrange(from as int, trees.len() as int) =~= Seq::<Tree>::empty());
    }
}

/// Two trees with the same marks are the same tree: what is built from a
/// parse depends on its marks alone, so that building twice from one parse
/// gives twice the same tree.
pub proof fn lemma_marks_decide_tree(a: Tree, b: Tree)
    requires
        a.marks() == b.marks(),
    ensures
        a == b,
{
    let marks = a.marks();
    assert(marks.subrange(0, marks.len() as int) =~= marks);
    lemma_decode_node_complete(marks, 0, a);
    lemma_decode_node_complete(marks, 0, b);
}

impl Cst {
    /// Builds the tree that has the given marks. There is a tree where the
    /// marks are the start and the end mark of one rule around the marks
    /// of its children; it is returned where it is well-formed, and `None`
    /// where no well-formed tree has these marks.
    pub fn from_marks(marks: &Vec<Mark>) -> (r: Option<Cst>)
        ensures
            match r {
                Some(cst) => cst@.marks() == marks@ && cst@.wf(),
                None => forall|tree: Tree| tree.marks() == marks@ ==> !tree.wf(),
            },
    {
        proof {
            assert(marks@.subrange(0, marks.len() as int) =~= marks@);
            assert forall|tree: Tree| tree.marks() == marks@ implies decode_node(marks@, 0)
                == Some((tree, marks.len() as int)) by {
                lemma_decode_node_complete(marks@, 0, tree);
            }
        }
        match parse_node(marks, 0) {
            Some((cst, next)) => {
                proof {
                    lemma_decode_node_sound(marks@, 0);
                }
                if next == marks.len() && cst.is_well_formed() {
                    Some(cst)
                } else {
                    None
                }
            },
            None => None,
        }
    }
}

} // verus!
