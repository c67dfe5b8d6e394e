//! The owned syntax tree and the queries on it.
//!
//! A [`Cst`] owns its children; its view is a [`Tree`], the same tree as a
//! mathematical value. The queries are stated over the `Tree`.

use vstd::prelude::*;
use crate::parser::{lemma_mode_default, Mode, Rule};
use crate::position::{CstRange, DocPosition};

verus! {

/// A syntax tree as a mathematical value.
pub struct Tree {
    /// The grammar rule that the node stands for.
    pub rule: Rule,
    /// The stretch of the document that the node covers.
    pub range: CstRange,
    /// The child nodes, from left to right.
    pub children: Seq<Tree>,
}

/// A node of the owned syntax tree.
#[derive(Debug)]
pub struct Cst {
    /// The grammar rule that the node stands for.
    pub rule: Rule,
    /// The stretch of the document that the node covers.
    pub range: CstRange,
    /// The child nodes, from left to right.
    pub inner: Vec<Cst>,
}

impl Tree {
    /// Whether child `i` is the first child whose range holds `pos`.
    pub open spec fn first_hit(self, pos: DocPosition, i: int) -> bool {
        &&& 0 <= i < self.children.len()
        &&& self.children[i].range.contains(pos)
        &&& forall|j: int| 0 <= j < i ==> !(#[trigger] self.children[j]).range.contains(pos)
    }

    /// The index of the first child whose range holds `pos`, if there is one.
    pub open spec fn chosen(self, pos: DocPosition) -> Option<int> {
        if exists|i: int| self.first_hit(pos, i) {
            Some(choose|i: int| self.first_hit(pos, i))
        } else {
            None
        }
    }

    /// The nodes below this one that hold `pos`, each the first such child
    /// of the next, from the innermost outwards.
    pub open spec fn dig(self, pos: DocPosition) -> Seq<Tree>
        decreases self,
    {
        match self.chosen(pos) {
            Some(k) => if 0 <= k < self.children.len() {
                self.children[k].dig(pos).push(self.children[k])
            } else {
                Seq::empty()
            },
            None => Seq::empty(),
        }
    }

    /// The mode at `pos`: what the kinds of the nodes around it decide, from
    /// the innermost outwards.
    pub open spec fn mode_at(self, pos: DocPosition) -> Mode {
        Mode::of_chain(rules_of(self.dig(pos)))
    }

    /// The nodes below the first `n` children and those children, in
    /// document order: each node before what lies below it.
    pub open spec fn descendants_upto(self, n: nat) -> Seq<Tree>
        decreases self, n,
    {
        if n == 0 || n > self.children.len() {
            Seq::empty()
        } else {
            self.descendants_upto((n - 1) as nat) + seq![self.children[n - 1]]
                + self.children[n - 1].descendants()
        }
    }

    /// All nodes below this one, in document order: each node before what
    /// lies below it.
    pub open spec fn descendants(self) -> Seq<Tree>
        decreases self, self.children.len() + 1,
    {
        self.descendants_upto(self.children.len())
    }

    /// The nodes of kind `rule` below this one, in document order.
    pub open spec fn pickup(self, rule: Rule) -> Seq<Tree> {
        self.descendants().filter(of_kind(rule))
    }

    /// A tree in which every range ends no earlier than it starts, every
    /// child lies within its parent, and each child ends before the next
    /// begins.
    pub open spec fn wf(self) -> bool
        decreases self,
    {
        &&& self.range.ordered()
        &&& forall|i: int|
            0 <= i < self.children.len() ==> self.range.encloses(
                (#[trigger] self.children[i]).range,
            ) && self.children[i].wf()
        &&& forall|i: int| 0 <= i < self.children.len() - 1 ==> #[trigger] self.in_order(i)
    }

    /// Whether `p` holds of this node and of every node below it.
    pub open spec fn all(self, p: spec_fn(Tree) -> bool) -> bool
        decreases self,
    {
        &&& p(self)
        &&& forall|i: int| 0 <= i < self.children.len() ==> (#[trigger] self.children[i]).all(p)
    }

    /// Whether every child's range lies within this node's range.
    pub open spec fn holds_children(self) -> bool {
        forall|i: int|
            0 <= i < self.children.len() ==> self.range.encloses((#[trigger] self.children[i]).range)
    }

    /// Whether child `i` ends no later than the child after it begins.
    pub open spec fn in_order(self, i: int) -> bool {
        self.children[i].range.precedes(self.children[i + 1].range)
    }
}

/// The test for a node of kind `rule`.
pub open spec fn of_kind(rule: Rule) -> spec_fn(Tree) -> bool {
    |t: Tree| t.rule == rule
}

/// The kinds of the nodes of a chain.
pub open spec fn rules_of(chain: Seq<Tree>) -> Seq<Rule> {
    chain.map_values(|t: Tree| t.rule)
}

/// The trees of a sequence of nodes.
pub open spec fn views(nodes: Seq<&Cst>) -> Seq<Tree> {
    nodes.map_values(|c: &Cst| c@)
}

impl Cst {
    /// The trees of the first `n` children.
    pub open spec fn child_views(&self, n: nat) -> Seq<Tree>
        decreases self, n,
    {
        if n == 0 || n > self.inner.len() {
            Seq::empty()
        } else {
            self.child_views((n - 1) as nat).push(self.inner[n - 1].view())
        }
    }

    /// The first `n` children, seen as trees, are those of the view.
    pub proof fn lemma_child_views(&self, n: nat)
        requires
            n <= self.inner.len(),
        ensures
            self.child_views(n).len() == n,
            forall|i: int| 0 <= i < n ==> #[trigger] self.child_views(n)[i] == self.inner[i]@,
        decreases n,
    {
        if n > 0 {
            self.lemma_child_views((n - 1) as nat);
            assert(self.child_views(n) == self.child_views((n - 1) as nat).push(
                self.inner[n - 1].view(),
            ));
        }
    }

    /// The view has the node's kind and range, and the views of its
    /// children as children.
    pub proof fn lemma_view(&self)
        ensures
            self@.rule == self.rule,
            self@.range == self.range,
            self@.children.len() == self.inner.len(),
            forall|i: int| 0 <= i < self.inner.len() ==> #[trigger] self@.children[i] == self.inner[i]@,
    {
        self.lemma_child_views(self.inner.len() as nat);
    }
}

impl View for Cst {
    type V = Tree;

    open spec fn view(&self) -> Tree
        decreases self, self.inner.len() + 1,
    {
        Tree { rule: self.rule, range: self.range, children: self.child_views(self.inner.len() as nat) }
    }
}

impl Cst {
    /// The index of the first child whose range holds `pos`, if there is one.
    pub fn choose_index(&self, pos: &DocPosition) -> (r: Option<usize>)
        ensures
            match r {
                Some(k) => self@.chosen(*pos) == Some(k as int) && k < self.inner.len(),
                None => self@.chosen(*pos) is None,
            },
    {
        proof {
            self.lemma_view();
        }
        let mut i: usize = 0;
        while i < self.inner.len()
            invariant
                i <= self.inner.len(),
                self@.children.len() == self.inner.len(),
                forall|j: int| 0 <= j < self.inner.len() ==> #[trigger] self@.children[j] == self.inner[j]@,
                forall|j: int| 0 <= j < i ==> !(#[trigger] self@.children[j]).range.contains(*pos),
            decreases self.inner.len() - i,
        {
            proof {
                self.inner[i as int].lemma_view();
            }
            if self.inner[i].range.includes(pos) {
                assert(self@.first_hit(*pos, i as int));
                return Some(i);
            }
            i += 1;
        }
        None
    }

    /// The first child whose range holds `pos`, if there is one.
    pub fn choose_child(&self, pos: &DocPosition) -> (r: Option<&Cst>)
        ensures
            match r {
                Some(child) => self@.chosen(*pos) is Some && child@
                    == self@.children[self@.chosen(*pos).unwrap()],
                None => self@.chosen(*pos) is None,
            },
    {
        proof {
            self.lemma_view();
        }
        match self.choose_index(pos) {
            Some(k) => Some(&self.inner[k]),
            None => None,
        }
    }

    /// The nodes below this one that hold `pos`, each the first such child
    /// of the next, from the innermost outwards.
    pub fn dig(&self, pos: &DocPosition) -> (chain: Vec<&Cst>)
        ensures
            views(chain@) == self@.dig(*pos),
        decreases self,
    {
        proof {
            self.lemma_view();
        }
        match self.choose_index(pos) {
            Some(k) => {
                let child = &self.inner[k];
                let mut chain = child.dig(pos);
                let ghost below = chain@;
                chain.push(child);
                assert(views(chain@) =~= views(below).push(child@));
                chain
            },
            None => {
                let chain: Vec<&Cst> = Vec::new();
                assert(views(chain@) =~= Seq::<Tree>::empty());
                chain
            },
        }
    }

    /// The mode at `pos`: what the kinds of the nodes around it decide, from
    /// the innermost outwards, and program mode where none decides.
    pub fn mode(&self, pos: &DocPosition) -> (mode: Mode)
        ensures
            mode == self@.mode_at(*pos),
    {
        let chain = self.dig(pos);
        let mut rules: Vec<Rule> = Vec::new();
        let mut i: usize = 0;
        while i < chain.len()
            invariant
                i <= chain.len(),
                rules@ =~= rules_of(views(chain@)).subrange(0, i as int),
            decreases chain.len() - i,
        {
            proof {
                chain[i as int].lemma_view();
            }
            rules.push(chain[i].rule);
            i += 1;
        }
        assert(rules@ =~= rules_of(views(chain@)));
        Mode::classify(&rules)
    }
}

/// A sequence of one node, filtered by kind, is that node or nothing.
proof fn lemma_filter_one(t: Tree, rule: Rule)
    ensures
        seq![t].filter(of_kind(rule)) == if t.rule == rule {
            seq![t]
        } else {
            Seq::<Tree>::empty()
        },
{
    reveal_with_fuel(Seq::filter, 2);
    assert(seq![t].drop_last() =~= Seq::<Tree>::empty());
    assert(Seq::<Tree>::empty().push(t) =~= seq![t]);
}

/// The nodes of a kind among the first children and what lies below them
/// are those among the children before the last of them, then that child if
/// it is of the kind, then those below it.
proof fn lemma_pickup_step(tree: Tree, i: int, rule: Rule)
    requires
        0 <= i < tree.children.len(),
    ensures
        tree.descendants_upto((i + 1) as nat).filter(of_kind(rule)) == tree.descendants_upto(
            i as nat,
        ).filter(of_kind(rule)) + seq![tree.children[i]].filter(of_kind(rule))
            + tree.children[i].pickup(rule),
{
    let kind = of_kind(rule);
    let upto = tree.descendants_upto(i as nat);
    let child = tree.children[i];
    assert(tree.descendants_upto((i + 1) as nat) == upto + seq![child] + child.descendants());
    Seq::filter_distributes_over_add(upto, seq![child], kind);
    Seq::filter_distributes_over_add(upto + seq![child], child.descendants(), kind);
}

impl Cst {
    /// The nodes of kind `rule` below this one, in document order: each
    /// node before what lies below it.
    pub fn pickup(&self, rule: Rule) -> (found: Vec<&Cst>)
        ensures
            views(found@) == self@.pickup(rule),
        decreases self,
    {
        proof {
            self.lemma_view();
        }
        let mut found: Vec<&Cst> = Vec::new();
        let mut i: usize = 0;
        assert(views(found@) =~= Seq::<Tree>::empty());
        assert(Seq::<Tree>::empty().filter(of_kind(rule)) =~= Seq::<Tree>::empty()) by {
            reveal_with_fuel(Seq::filter, 1);
        }
        while i < self.inner.len()
            invariant
                i <= self.inner.len(),
                self@.children.len() == self.inner.len(),
                forall|j: int| 0 <= j < self.inner.len() ==> #[trigger] self@.children[j] == self.inner[j]@,
                views(found@) == self@.descendants_upto(i as nat).filter(of_kind(rule)),
            decreases self.inner.len() - i,
        {
            let cst = &self.inner[i];
            let ghost before = found@;
            proof {
                cst.lemma_view();
            }
            if cst.rule == rule {
                found.push(cst);
            }
            let ghost with_child = found@;
            let mut below = cst.pickup(rule);
            let ghost under = below@;
            found.append(&mut below);
            proof {
                assert(views(with_child) == views(before) + seq![cst@].filter(of_kind(rule))) by {
                    lemma_filter_one(cst@, rule);
                    if cst.rule == rule {
                        assert(with_child == before.push(cst));
                        assert(views(with_child) =~= views(before) + seq![cst@]);
                    } else {
                        assert(views(with_child) =~= views(before) + Seq::<Tree>::empty());
                    }
                }
                assert(views(found@) == views(with_child) + views(under)) by {
                    assert(found@ == with_child + under);
                    assert(views(with_child + under) =~= views(with_child) + views(under));
                }
                lemma_pickup_step(self@, i as int, rule);
            }
            i += 1;
        }
        found
    }

    /// Whether every range of the tree ends no earlier than it starts, every
    /// child lies within its parent, and each child ends before the next
    /// begins.
    pub fn is_well_formed(&self) -> (r: bool)
        ensures
            r == self@.wf(),
        decreases self,
    {
        proof {
            self.lemma_view();
        }
        if !self.range.is_ordered() {
            return false;
        }
        let mut i: usize = 0;
        while i < self.inner.len()
            invariant
                i <= self.inner.len(),
                self@.range == self.range,
                self@.children.len() == self.inner.len(),
                forall|j: int| 0 <= j < self.inner.len() ==> #[trigger] self@.children[j] == self.inner[j]@,
                forall|j: int|
                    0 <= j < i ==> self.range.encloses((#[trigger] self@.children[j]).range)
                        && self@.children[j].wf(),
                forall|j: int| 0 <= j < i - 1 ==> #[trigger] self@.in_order(j),
            decreases self.inner.len() - i,
        {
            let child = &self.inner[i];
            proof {
                child.lemma_view();
            }
            if !self.range.surrounds(&child.range) || !child.is_well_formed() {
                assert(!(self.range.encloses(self@.children[i as int].range)
                    && self@.children[i as int].wf()));
                return false;
            }
            if i > 0 {
                proof {
                    self.inner[i - 1].lemma_view();
                }
                if !self.inner[i - 1].range.is_before(&child.range) {
                    assert(!self@.in_order(i - 1));
                    return false;
                }
            }
            i += 1;
        }
        true
    }
}

impl Tree {
    /// What holds of a node and of all below it holds of all that is below
    /// each of the nodes below it.
    pub proof fn lemma_all_below(self, p: spec_fn(Tree) -> bool, n: nat)
        requires
            self.all(p),
            n <= self.children.len(),
        ensures
            forall|k: int|
                0 <= k < self.descendants_upto(n).len() ==> (#[trigger] self.descendants_upto(n)[k]).all(p),
        decreases self, n,
    {
        if n > 0 {
            let before = self.descendants_upto((n - 1) as nat);
            let child = self.children[n - 1];
            self.lemma_all_below(p, (n - 1) as nat);
            child.lemma_all_descendants(p);
            assert(self.descendants_upto(n) == before + seq![child] + child.descendants());
        }
    }

    /// What holds of a node and of all below it holds of all that is below
    /// each of its descendants.
    pub proof fn lemma_all_descendants(self, p: spec_fn(Tree) -> bool)
        requires
            self.all(p),
        ensures
            forall|k: int|
                0 <= k < self.descendants().len() ==> (#[trigger] self.descendants()[k]).all(p),
        decreases self, self.children.len() + 1,
    {
        self.lemma_all_below(p, self.children.len());
        assert(self.descendants() == self.descendants_upto(self.children.len()));
    }

    /// What holds of a node and of all below it holds of every node that
    /// `pickup` finds, and of all below each; and each is of the kind asked
    /// for.
    pub proof fn lemma_all_pickup(self, p: spec_fn(Tree) -> bool, rule: Rule)
        requires
            self.all(p),
        ensures
            forall|k: int|
                0 <= k < self.pickup(rule).len() ==> (#[trigger] self.pickup(rule)[k]).all(p)
                    && self.pickup(rule)[k].rule == rule,
    {
        self.lemma_all_descendants(p);
        let below = self.descendants();
        let found = self.pickup(rule);
        assert forall|k: int| 0 <= k < found.len() implies (#[trigger] found[k]).all(p)
            && found[k].rule == rule by {
            below.lemma_filter_pred(of_kind(rule), k);
            assert(found.contains(found[k]));
            below.lemma_filter_contains_rev(of_kind(rule), found[k]);
            let j = choose|j: int| 0 <= j < below.len() && below[j] == found[k];
            assert(below[j].all(p));
        }
    }

    /// What holds of a node and of all below it holds of every node that
    /// `dig` finds.
    pub proof fn lemma_all_dig(self, p: spec_fn(Tree) -> bool, pos: DocPosition)
        requires
            self.all(p),
        ensures
            forall|k: int| 0 <= k < self.dig(pos).len() ==> (#[trigger] self.dig(pos)[k]).all(p),
        decreases self,
    {
        match self.chosen(pos) {
            Some(k) => {
                if 0 <= k < self.children.len() {
                    let child = self.children[k];
                    child.lemma_all_dig(p, pos);
                    assert(child.all(p));
                    assert(self.dig(pos) == child.dig(pos).push(child));
                    assert forall|j: int| 0 <= j < self.dig(pos).len() implies (
                    #[trigger] self.dig(pos)[j]).all(p) by {
                        if j < child.dig(pos).len() {
                            assert(self.dig(pos)[j] == child.dig(pos)[j]);
                        }
                    }
                }
            },
            None => {},
        }
    }

    /// Every node that `dig` finds holds the position, and each but the
    /// outermost is the first child of the next that does; the outermost is
    /// such a child of this node.
    pub proof fn lemma_dig_chain(self, pos: DocPosition)
        ensures
            forall|k: int| 0 <= k < self.dig(pos).len() ==> (#[trigger] self.dig(pos)[k]).range.contains(pos),
            forall|k: int|
                0 <= k < self.dig(pos).len() - 1 ==> {
                    let outer = #[trigger] self.dig(pos)[k + 1];
                    outer.chosen(pos) is Some && outer.children[outer.chosen(pos).unwrap()]
                        == self.dig(pos)[k]
                },
            self.dig(pos).len() > 0 ==> self.chosen(pos) is Some && self.children[self.chosen(
                pos,
            ).unwrap()] == self.dig(pos).last(),
            self.dig(pos).len() > 0 ==> self.dig(pos)[0].chosen(pos) is None,
            self.dig(pos).len() == 0 <==> self.chosen(pos) is None,
        decreases self,
    {
        match self.chosen(pos) {
            Some(k) => {
                assert(self.first_hit(pos, k));
                let child = self.children[k];
                child.lemma_dig_chain(pos);
                let below = child.dig(pos);
                assert(self.dig(pos) == below.push(child));
                assert forall|j: int| 0 <= j < self.dig(pos).len() - 1 implies {
                    let outer = #[trigger] self.dig(pos)[j + 1];
                    outer.chosen(pos) is Some && outer.children[outer.chosen(pos).unwrap()]
                        == self.dig(pos)[j]
                } by {
                    if j + 1 < below.len() {
                        assert(self.dig(pos)[j + 1] == below[j + 1]);
                    } else {
                        assert(self.dig(pos)[j + 1] == child);
                        assert(below.len() > 0);
                        assert(self.dig(pos)[j] == below.last());
                    }
                }
                if below.len() == 0 {
                    assert(self.dig(pos)[0] == child);
                } else {
                    assert(self.dig(pos)[0] == below[0]);
                }
            },
            None => {},
        }
    }

    /// Where none of the nodes around a position decides a mode, the mode
    /// there is program mode.
    pub proof fn lemma_mode_undecided(self, pos: DocPosition)
        requires
            forall|k: int| 0 <= k < self.dig(pos).len() ==> (#[trigger] self.dig(pos)[k]).rule.mode() is None,
        ensures
            self.mode_at(pos) == Mode::Program,
    {
        let rules = rules_of(self.dig(pos));
        assert forall|k: int| 0 <= k < rules.len() implies (#[trigger] rules[k]).mode() is None by {
            assert(rules[k] == self.dig(pos)[k].rule);
        }
        lemma_mode_default(rules);
    }

    /// At a position that no child of the root holds, no node is found and
    /// the mode is program mode.
    pub proof fn lemma_mode_outside(self, pos: DocPosition)
        requires
            self.chosen(pos) is None,
        ensures
            self.dig(pos) == Seq::<Tree>::empty(),
            self.mode_at(pos) == Mode::Program,
    {
        self.lemma_mode_undecided(pos);
    }

    /// Of the children that hold a position, the leftmost is chosen: never
    /// one to the right of another that holds it.
    pub proof fn lemma_leftmost_wins(self, pos: DocPosition, left: int, right: int)
        requires
            0 <= left < right < self.children.len(),
            self.children[left].range.contains(pos),
        ensures
            self.chosen(pos) is Some,
            self.chosen(pos).unwrap() <= left,
            self.chosen(pos) != Some(right),
    {
        self.lemma_some_hit(pos, left);
        let k = choose|i: int| self.first_hit(pos, i);
        if k > left {
            assert(!self.children[left].range.contains(pos));
        }
    }

    /// Where a child holds the position, some child is the first to hold it.
    proof fn lemma_some_hit(self, pos: DocPosition, upto: int)
        requires
            0 <= upto < self.children.len(),
            self.children[upto].range.contains(pos),
        ensures
            exists|i: int| self.first_hit(pos, i),
        decreases upto,
    {
        if forall|j: int| 0 <= j < upto ==> !(#[trigger] self.children[j]).range.contains(pos) {
            assert(self.first_hit(pos, upto));
        } else {
            let j = choose|j: int| 0 <= j < upto && (#[trigger] self.children[j]).range.contains(pos);
            self.lemma_some_hit(pos, j);
        }
    }

    /// In a well-formed tree each child ends no later than any child to its
    /// right begins.
    pub proof fn lemma_siblings_in_order(self, a: int, b: int)
        requires
            self.wf(),
            0 <= a < b < self.children.len(),
        ensures
            self.children[a].range.precedes(self.children[b].range),
        decreases b - a,
    {
        assert(self.in_order(b - 1));
        if a < b - 1 {
            self.lemma_siblings_in_order(a, b - 1);
            assert(self.children[b - 1].wf());
        }
    }

    /// In a well-formed tree a position strictly inside a child is held by
    /// no other child, and that child is the one chosen.
    pub proof fn lemma_one_child_holds(self, pos: DocPosition, i: int)
        requires
            self.wf(),
            0 <= i < self.children.len(),
            self.children[i].range.start.position().lt(pos),
            pos.lt(self.children[i].range.end.position()),
        ensures
            forall|j: int|
                0 <= j < self.children.len() && j != i ==> !(#[trigger] self.children[j]).range.contains(
                    pos,
                ),
            self.chosen(pos) == Some(i),
    {
        assert forall|j: int| 0 <= j < self.children.len() && j != i implies !(
        #[trigger] self.children[j]).range.contains(pos) by {
            if j < i {
                self.lemma_siblings_in_order(j, i);
            } else {
                self.lemma_siblings_in_order(i, j);
            }
        }
        assert(self.first_hit(pos, i));
        let k = choose|k: int| self.first_hit(pos, k);
        assert(k == i);
    }

    /// A position on the boundary that two adjacent children of a
    /// well-formed tree share, the left one ending where the right one
    /// begins and not being empty, resolves to the left child.
    pub proof fn lemma_boundary_resolves_left(self, pos: DocPosition, i: int)
        requires
            self.wf(),
            0 <= i < self.children.len() - 1,
            self.children[i].range.end.position() == pos,
            self.children[i + 1].range.start.position() == pos,
            self.children[i].range.start.position().lt(pos),
        ensures
            self.chosen(pos) == Some(i),
            self.dig(pos).len() > 0,
            self.dig(pos).last() == self.children[i],
    {
        assert(self.children[i].range.contains(pos));
        assert forall|j: int| 0 <= j < i implies !(#[trigger] self.children[j]).range.contains(pos) by {
            self.lemma_siblings_in_order(j, i);
        }
        assert(self.first_hit(pos, i));
        let k = choose|k: int| self.first_hit(pos, k);
        assert(k == i) by {
            if k < i {
                assert(!self.children[k].range.contains(pos));
            }
            if k > i {
                assert(!self.children[i].range.contains(pos));
            }
        }
        self.lemma_dig_chain(pos);
    }

    /// In a well-formed tree every node, at whatever depth, holds the ranges
    /// of its children within its own.
    pub proof fn lemma_containment(self)
        requires
            self.wf(),
        ensures
            self.all(|t: Tree| t.holds_children()),
            forall|k: int|
                0 <= k < self.descendants().len() ==> (#[trigger] self.descendants()[k]).holds_children(),
        decreases self,
    {
        let p = |t: Tree| t.holds_children();
        assert forall|i: int| 0 <= i < self.children.len() implies (#[trigger] self.children[i]).all(
            p,
        ) by {
            self.children[i].lemma_containment();
        }
        assert(p(self));
        self.lemma_all_descendants(p);
        assert forall|k: int| 0 <= k < self.descendants().len() implies (
        #[trigger] self.descendants()[k]).holds_children() by {
            assert(self.descendants()[k].all(p));
            assert(p(self.descendants()[k]));
        }
    }
}

impl Tree {
    /// Whether `node` is a node below this one.
    pub open spec fn below(self, node: Tree) -> bool {
        self.descendants().contains(node)
    }

    /// The first `n` children and all that is below them are among what is
    /// below the first `n` children.
    proof fn lemma_upto_holds(self, n: nat, i: int)
        requires
            0 <= i < n <= self.children.len(),
        ensures
            self.descendants_upto(n).contains(self.children[i]),
            forall|node: Tree|
                self.children[i].below(node) ==> #[trigger] self.descendants_upto(n).contains(node),
        decreases n,
    {
        let before = self.descendants_upto((n - 1) as nat);
        let child = self.children[n - 1];
        let all = self.descendants_upto(n);
        assert(all == before + seq![child] + child.descendants());
        if i < n - 1 {
            self.lemma_upto_holds((n - 1) as nat, i);
            let k = choose|k: int| 0 <= k < before.len() && before[k] == self.children[i];
            assert(all[k] == self.children[i]);
            assert forall|node: Tree| self.children[i].below(node) implies #[trigger] all.contains(
                node,
            ) by {
                assert(before.contains(node));
                let j = choose|j: int| 0 <= j < before.len() && before[j] == node;
                assert(all[j] == node);
            }
        } else {
            assert(all[before.len() as int] == child);
            assert forall|node: Tree| child.below(node) implies #[trigger] all.contains(node) by {
                let j = choose|j: int|
                    0 <= j < child.descendants().len() && child.descendants()[j] == node;
                assert(all[before.len() + 1 + j] == node);
            }
        }
    }

    /// Every child is below its parent, and so is all that is below a
    /// child.
    pub proof fn lemma_child_below(self, i: int)
        requires
            0 <= i < self.children.len(),
        ensures
            self.below(self.children[i]),
            forall|node: Tree| self.children[i].below(node) ==> #[trigger] self.below(node),
    {
        self.lemma_upto_holds(self.children.len(), i);
        assert(self.descendants() == self.descendants_upto(self.children.len()));
    }

    /// What is below the first `n` children is one of them or below one of
    /// them.
    proof fn lemma_upto_from(self, n: nat, node: Tree)
        requires
            n <= self.children.len(),
            self.descendants_upto(n).contains(node),
        ensures
            exists|i: int|
                0 <= i < n && (#[trigger] self.children[i] == node || self.children[i].below(node)),
        decreases n,
    {
        if n > 0 {
            let before = self.descendants_upto((n - 1) as nat);
            let child = self.children[n - 1];
            let all = self.descendants_upto(n);
            assert(all == before + seq![child] + child.descendants());
            let k = choose|k: int| 0 <= k < all.len() && all[k] == node;
            if k < before.len() {
                assert(before[k] == node);
                self.lemma_upto_from((n - 1) as nat, node);
                let i = choose|i: int|
                    0 <= i < n - 1 && (#[trigger] self.children[i] == node || self.children[i].below(
                        node,
                    ));
                assert(self.children[i] == node || self.children[i].below(node));
            } else if k == before.len() {
                assert(self.children[n - 1] == node);
            } else {
                assert(child.descendants()[k - before.len() - 1] == node);
                assert(self.children[n - 1].below(node));
            }
        }
    }

    /// What is below a node that is below this one is below this one.
    pub proof fn lemma_below_below(self, middle: Tree, node: Tree)
        requires
            self.below(middle),
            middle.below(node),
        ensures
            self.below(node),
        decreases self,
    {
        assert(self.descendants() == self.descendants_upto(self.children.len()));
        self.lemma_upto_from(self.children.len(), middle);
        let i = choose|i: int|
            0 <= i < self.children.len() && (#[trigger] self.children[i] == middle
                || self.children[i].below(middle));
        if self.children[i] != middle {
            self.children[i].lemma_below_below(middle, node);
        }
        self.lemma_child_below(i);
    }

    /// Every node that `pickup` finds is below this one.
    pub proof fn lemma_pickup_below(self, rule: Rule, k: int)
        requires
            0 <= k < self.pickup(rule).len(),
        ensures
            self.below(self.pickup(rule)[k]),
            self.pickup(rule)[k].rule == rule,
    {
        let found = self.pickup(rule);
        self.descendants().lemma_filter_pred(of_kind(rule), k);
        assert(found.contains(found[k]));
        self.descendants().lemma_filter_contains_rev(of_kind(rule), found[k]);
    }
}

} // verus!
