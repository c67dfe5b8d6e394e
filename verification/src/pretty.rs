//! A syntax tree written out as text, one node a line.
//!
//! Each node is written on a line of its own, indented by two spaces more
//! than its parent: a node with children as `- [rule] (range)`, and a node
//! without as `| [rule] (range): "text"`, where the range is written as
//! `line:character..line:character`.

use vstd::prelude::*;
use vstd::string::*;
use crate::buffer::{fits, node_fits, text_between, BufferCst};
use crate::cst::{Cst, Tree};
use crate::position::CstRange;

verus! {

/// The character of a decimal digit.
pub open spec fn digit(d: nat) -> char {
    if d == 0 {
        '0'
    } else if d == 1 {
        '1'
    } else if d == 2 {
        '2'
    } else if d == 3 {
        '3'
    } else if d == 4 {
        '4'
    } else if d == 5 {
        '5'
    } else if d == 6 {
        '6'
    } else if d == 7 {
        '7'
    } else if d == 8 {
        '8'
    } else {
        '9'
    }
}

/// A number in decimal digits, without leading zeros.
pub open spec fn decimal(n: nat) -> Seq<char>
    decreases n,
{
    if n < 10 {
        seq![digit(n)]
    } else {
        decimal(n / 10).push(digit(n % 10))
    }
}

/// As many spaces as asked for.
pub open spec fn spaces(n: nat) -> Seq<char> {
    Seq::new(n, |i: int| ' ')
}

/// A range as `line:character..line:character`.
pub open spec fn range_text(range: CstRange) -> Seq<char> {
    decimal(range.start.line as nat) + seq![':'] + decimal(range.start.character as nat) + seq![
        '.',
        '.',
    ] + decimal(range.end.line as nat) + seq![':'] + decimal(range.end.character as nat)
}

/// The width of the indentation below one that is `indent` wide: two more,
/// as far as a `usize` holds it.
pub open spec fn deeper(indent: usize) -> usize {
    if indent + 2 > usize::MAX {
        usize::MAX
    } else {
        (indent + 2) as usize
    }
}

/// The trees from index `from` on, written out one after the other.
pub open spec fn pretty_from(trees: Seq<Tree>, from: nat, bytes: Seq<u8>, indent: usize) -> Seq<char>
    decreases trees, trees.len() - from,
{
    if from >= trees.len() {
        Seq::empty()
    } else {
        trees[from as int].pretty(bytes, indent) + pretty_from(trees, from + 1, bytes, indent)
    }
}

impl Tree {
    /// What comes first in the line of a node: its rule and its range.
    pub open spec fn heading(self) -> Seq<char> {
        seq!['['] + self.rule.name_text() + seq![']', ' ', '('] + range_text(self.range) + seq![')']
    }

    /// The tree written out, the root indented by `indent` spaces.
    pub open spec fn pretty(self, bytes: Seq<u8>, indent: usize) -> Seq<char>
        decreases self, 0nat,
    {
        if self.children.len() == 0 {
            spaces(indent as nat) + seq!['|', ' '] + self.heading() + seq![':', ' ', '"']
                + text_between(bytes, self.range) + seq!['"', '\n']
        } else {
            spaces(indent as nat) + seq!['-', ' '] + self.heading() + seq!['\n'] + pretty_from(
                self.children,
                0,
                bytes,
                deeper(indent),
            )
        }
    }
}

/// The text of a decimal digit.
fn digit_str(d: u32) -> (s: &'static str)
    requires
        d < 10,
    ensures
        s@ == seq![digit(d as nat)],
{
    proof {
        reveal_strlit("0");
        reveal_strlit("1");
        reveal_strlit("2");
        reveal_strlit("3");
        reveal_strlit("4");
        reveal_strlit("5");
        reveal_strlit("6");
        reveal_strlit("7");
        reveal_strlit("8");
        reveal_strlit("9");
    }
    let s = match d {
        0 => "0",
        1 => "1",
        2 => "2",
        3 => "3",
        4 => "4",
        5 => "5",
        6 => "6",
        7 => "7",
        8 => "8",
        _ => "9",
    };
    assert(s@ =~= seq![digit(d as nat)]);
    s
}

/// Appends a number in decimal digits.
fn push_decimal(out: &mut String, n: u32)
    ensures
        final(out)@ == old(out)@ + decimal(n as nat),
    decreases n,
{
    if n < 10 {
        out.append(digit_str(n));
    } else {
        push_decimal(out, n / 10);
        out.append(digit_str(n % 10));
        assert(out@ =~= old(out)@ + decimal(n as nat));
    }
}

/// A number in decimal digits, without leading zeros.
pub fn decimal_string(n: u32) -> (s: String)
    ensures
        s@ == decimal(n as nat),
{
    let mut s = String::new();
    push_decimal(&mut s, n);
    assert(s@ =~= decimal(n as nat));
    s
}

/// Appends as many spaces as asked for.
fn push_spaces(out: &mut String, n: usize)
    ensures
        final(out)@ == old(out)@ + spaces(n as nat),
{
    proof {
        reveal_strlit(" ");
    }
    let mut i: usize = 0;
    assert(out@ =~= old(out)@ + spaces(0));
    while i < n
        invariant
            i <= n,
            " "@ == seq![' '],
            out@ == old(out)@ + spaces(i as nat),
        decreases n - i,
    {
        out.append(" ");
        assert(out@ =~= old(out)@ + spaces((i + 1) as nat));
        i += 1;
    }
}

/// Appends a range as `line:character..line:character`.
fn push_range(out: &mut String, range: &CstRange)
    ensures
        final(out)@ == old(out)@ + range_text(*range),
{
    proof {
        reveal_strlit(":");
        reveal_strlit("..");
    }
    push_decimal(out, range.start.line);
    out.append(":");
    push_decimal(out, range.start.character);
    out.append("..");
    push_decimal(out, range.end.line);
    out.append(":");
    push_decimal(out, range.end.character);
    assert(out@ =~= old(out)@ + range_text(*range));
}

impl Cst {
    /// Appends the rule and the range of the node.
    fn push_heading(&self, out: &mut String)
        ensures
            final(out)@ == old(out)@ + self@.heading(),
    {
        proof {
            self.lemma_view();
            reveal_strlit("[");
            reveal_strlit("] (");
            reveal_strlit(")");
        }
        out.append("[");
        out.append(self.rule.name());
        out.append("] (");
        push_range(out, &self.range);
        out.append(")");
        assert(out@ =~= old(out)@ + self@.heading());
    }

    /// Appends the tree written out, the root indented by `indent` spaces.
    fn push_pretty(&self, out: &mut String, text: &str, indent: usize)
        requires
            self@.all(node_fits(text.spec_bytes())),
        ensures
            final(out)@ == old(out)@ + self@.pretty(text.spec_bytes(), indent),
        decreases self,
    {
        let ghost bytes = text.spec_bytes();
        proof {
            self.lemma_view();
            reveal_strlit("| ");
            reveal_strlit(": \"");
            reveal_strlit("\"\n");
            reveal_strlit("- ");
            reveal_strlit("\n");
        }
        push_spaces(out, indent);
        if self.inner.len() == 0 {
            out.append("| ");
            self.push_heading(out);
            out.append(": \"");
            out.append(self.as_str(text));
            out.append("\"\n");
            assert(out@ =~= old(out)@ + self@.pretty(bytes, indent));
        } else {
            out.append("- ");
            self.push_heading(out);
            out.append("\n");
            let below = indent.saturating_add(2);
            let ghost head = out@;
            assert(head =~= old(out)@ + (spaces(indent as nat) + seq!['-', ' '] + self@.heading()
                + seq!['\n']));
            let ghost trees = self@.children;
            proof {
                assert(pretty_from(trees, trees.len(), bytes, below) =~= Seq::<char>::empty());
            }
            let mut i: usize = 0;
            while i < self.inner.len()
                invariant
                    i <= self.inner.len(),
                    bytes == text.spec_bytes(),
                    below == deeper(indent),
                    trees == self@.children,
                    trees.len() == self.inner.len(),
                    forall|j: int| 0 <= j < self.inner.len() ==> #[trigger] trees[j] == self.inner[j]@,
                    forall|j: int| 0 <= j < trees.len() ==> (#[trigger] trees[j]).all(node_fits(bytes)),
                    out@ + pretty_from(trees, i as nat, bytes, below) == head + pretty_from(
                        trees,
                        0,
                        bytes,
                        below,
                    ),
                decreases self.inner.len() - i,
            {
                let ghost before = out@;
                proof {
                    assert(trees[i as int].all(node_fits(bytes)));
                }
                self.inner[i].push_pretty(out, text, below);
                proof {
                    assert(pretty_from(trees, i as nat, bytes, below) == trees[i as int].pretty(
                        bytes,
                        below,
                    ) + pretty_from(trees, (i + 1) as nat, bytes, below));
                    assert(out@ + pretty_from(trees, (i + 1) as nat, bytes, below) =~= before
                        + pretty_from(trees, i as nat, bytes, below));
                }
                i += 1;
            }
            assert(out@ =~= old(out)@ + self@.pretty(bytes, indent));
        }
    }

    /// The tree written out, the root indented by `indent` spaces.
    pub fn pretty_text(&self, text: &str, indent: usize) -> (out: String)
        requires
            self@.all(node_fits(text.spec_bytes())),
        ensures
            out@ == self@.pretty(text.spec_bytes(), indent),
    {
        let mut out = String::new();
        self.push_pretty(&mut out, text, indent);
        assert(out@ =~= self@.pretty(text.spec_bytes(), indent));
        out
    }
}

impl BufferCst {
    /// What is shown of a text: its tree written out, and the text itself
    /// under a note where it has no tree.
    pub open spec fn shown(&self) -> Seq<char> {
        match self.tree() {
            Some(tree) => tree.pretty(self.bytes(), 0),
            None => "No CST. raw str: \"\"\"\n"@ + self.text() + "\n\"\"\""@,
        }
    }

    /// What is shown of a text: its tree written out, and the text itself
    /// under a note where it has no tree.
    pub fn to_string(&self) -> (out: String)
        ensures
            out@ == self.shown(),
    {
        match self.cst() {
            Some(cst) => cst.pretty_text(self.buffer(), 0),
            None => {
                let mut out = String::new();
                out.append("No CST. raw str: \"\"\"\n");
                out.append(self.buffer());
                out.append("\n\"\"\"");
                assert(out@ =~= self.shown());
                out
            },
        }
    }
}

} // verus!
