//! A text with its syntax tree.
//!
//! A [`BufferCst`] owns a text and, where the text was parsed, the syntax
//! tree of it. The tree it holds is well-formed, and every range in it
//! falls on character boundaries of the text, so that the text of every node
//! can be taken out.

use vstd::prelude::*;
use vstd::string::*;
use vstd::utf8::*;
use crate::cst::{Cst, Tree};
use crate::environment::{environment_of, node_named, Environment};
use crate::grammar::ParseError;
use crate::parser::Mode;
use crate::position::{CstRange, DocPosition};

verus! {

/// Whether the range lies within the bytes of a text and, unless it is
/// empty, both of its ends fall on character boundaries.
pub open spec fn fits(range: CstRange, bytes: Seq<u8>) -> bool {
    &&& range.start.byte <= range.end.byte <= bytes.len()
    &&& range.start.byte == range.end.byte || (is_char_boundary(bytes, range.start.byte as int)
        && is_char_boundary(bytes, range.end.byte as int))
}

/// The test for a node whose range fits the bytes of a text.
pub open spec fn node_fits(bytes: Seq<u8>) -> spec_fn(Tree) -> bool {
    |t: Tree| fits(t.range, bytes)
}

/// The text between the two ends of a range, in bytes.
pub open spec fn bytes_between(bytes: Seq<u8>, range: CstRange) -> Seq<u8> {
    bytes.subrange(range.start.byte as int, range.end.byte as int)
}

/// The text between the two ends of a range.
pub open spec fn text_between(bytes: Seq<u8>, range: CstRange) -> Seq<char> {
    decode_utf8(bytes_between(bytes, range))
}

/// A character boundary of a text is one of each part of the text that ends
/// at a later boundary.
proof fn lemma_boundary_in_prefix(bytes: Seq<u8>, start: int, end: int)
    requires
        valid_utf8(bytes),
        0 <= start <= end <= bytes.len(),
        is_char_boundary(bytes, start),
        is_char_boundary(bytes, end),
    ensures
        valid_utf8(bytes.subrange(0, end)),
        is_char_boundary(bytes.subrange(0, end), start),
{
    let head = bytes.subrange(0, end);
    valid_utf8_split(bytes, end);
    if start == end {
        is_char_boundary_start_end_of_seq(head);
    } else {
        is_char_boundary_iff_not_is_continuation_byte(bytes, start);
        assert(head[start] == bytes[start]);
        is_char_boundary_iff_not_is_continuation_byte(head, start);
    }
}

/// Whether the range lies within the text and, unless it is empty, both of
/// its ends fall on character boundaries.
pub fn range_fits(text: &str, range: &CstRange) -> (r: bool)
    ensures
        r == fits(*range, text.spec_bytes()),
{
    proof {
        encode_utf8_valid_utf8(text@);
    }
    if range.start.byte == range.end.byte {
        range.end.byte <= text.as_bytes().len()
    } else {
        range.start.byte < range.end.byte && text.is_char_boundary(range.start.byte)
            && text.is_char_boundary(range.end.byte)
    }
}

/// The part of the text that the range covers; the empty text for an empty
/// range, wherever in the text it lies.
pub fn slice<'a>(text: &'a str, range: &CstRange) -> (part: &'a str)
    requires
        fits(*range, text.spec_bytes()),
    ensures
        part.spec_bytes() == bytes_between(text.spec_bytes(), *range),
        part@ == text_between(text.spec_bytes(), *range),
{
    let ghost bytes = text.spec_bytes();
    proof {
        encode_utf8_valid_utf8(text@);
    }
    if range.start.byte == range.end.byte {
        let (part, _) = text.split_at(0);
        proof {
            assert(part.spec_bytes() =~= bytes_between(bytes, *range));
            encode_utf8_decode_utf8(part@);
        }
        return part;
    }
    proof {
        lemma_boundary_in_prefix(bytes, range.start.byte as int, range.end.byte as int);
    }
    let (head, _) = text.split_at(range.end.byte);
    let (_, part) = head.split_at(range.start.byte);
    proof {
        assert(part.spec_bytes() =~= bytes_between(bytes, *range));
        encode_utf8_decode_utf8(part@);
    }
    part
}

impl Cst {
    /// Whether the range of this node and of every node below it lies
    /// within the text, with both ends on character boundaries.
    pub fn fits_text(&self, text: &str) -> (r: bool)
        ensures
            r == self@.all(node_fits(text.spec_bytes())),
        decreases self,
    {
        proof {
            self.lemma_view();
        }
        if !range_fits(text, &self.range) {
            return false;
        }
        let mut i: usize = 0;
        while i < self.inner.len()
            invariant
                i <= self.inner.len(),
                self@.children.len() == self.inner.len(),
                forall|j: int| 0 <= j < self.inner.len() ==> #[trigger] self@.children[j] == self.inner[j]@,
                forall|j: int|
                    0 <= j < i ==> (#[trigger] self@.children[j]).all(node_fits(text.spec_bytes())),
            decreases self.inner.len() - i,
        {
            if !self.inner[i].fits_text(text) {
                assert(!self@.children[i as int].all(node_fits(text.spec_bytes())));
                return false;
            }
            i += 1;
        }
        true
    }

    /// The part of the text that this node covers.
    pub fn as_str<'a>(&self, text: &'a str) -> (part: &'a str)
        requires
            fits(self.range, text.spec_bytes()),
        ensures
            part.spec_bytes() == bytes_between(text.spec_bytes(), self.range),
            part@ == text_between(text.spec_bytes(), self.range),
    {
        slice(text, &self.range)
    }
}

/// A text and, where it was parsed, its syntax tree.
#[derive(Debug)]
pub struct BufferCst {
    /// The text.
    buffer: String,
    /// The syntax tree of the text; none where parsing failed.
    cst: Option<Cst>,
}

impl BufferCst {
    /// The tree is one that the text can be held with.
    #[verifier::type_invariant]
    pub closed spec fn inv(&self) -> bool {
        match self.cst {
            Some(cst) => BufferCst::admits(self.buffer@, cst@),
            None => true,
        }
    }

    /// The text.
    pub closed spec fn text(&self) -> Seq<char> {
        self.buffer@
    }

    /// The text as bytes.
    pub open spec fn bytes(&self) -> Seq<u8> {
        encode_utf8(self.text())
    }

    /// The syntax tree of the text, if it has one.
    pub closed spec fn tree(&self) -> Option<Tree> {
        match self.cst {
            Some(cst) => Some(cst@),
            None => None,
        }
    }

    /// Whether the tree is one that a text can be held with: well-formed,
    /// with every range fitting the text, and with every statement that
    /// defines something having the child that names it.
    pub open spec fn admits(text: Seq<char>, tree: Tree) -> bool {
        tree.wf() && tree.all(node_fits(encode_utf8(text))) && tree.all(node_named())
    }

    /// The tree that is kept of the outcome of parsing a text: the one that
    /// parsing gave, where the text can be held with it.
    pub open spec fn kept(text: Seq<char>, parsed: Result<Cst, ParseError>) -> Option<Tree> {
        match parsed {
            Ok(cst) => if BufferCst::admits(text, cst@) {
                Some(cst@)
            } else {
                None
            },
            Err(_) => None,
        }
    }

    /// What is reported of the outcome of parsing a text: the failure, or
    /// the violation where parsing gave a tree that the text cannot be held
    /// with.
    pub open spec fn reported(text: Seq<char>, parsed: Result<Cst, ParseError>) -> Option<
        ParseError,
    > {
        match parsed {
            Ok(cst) => if BufferCst::admits(text, cst@) {
                None
            } else {
                Some(ParseError::InvariantViolation)
            },
            Err(error) => Some(error),
        }
    }

    /// Joins a text with the outcome of parsing it. The tree is kept where
    /// parsing gave one that is well-formed, fits the text and has a name
    /// for each of its definitions; where it gave
    /// another, the text is held without a tree and the violation is
    /// reported; where parsing failed, the text is held without a tree and
    /// the failure is handed back.
    pub fn parse_into(buffer: String, parsed: Result<Cst, ParseError>) -> (r: (
        BufferCst,
        Option<ParseError>,
    ))
        ensures
            r.0.text() == buffer@,
            r.0.tree() == BufferCst::kept(buffer@, parsed),
            r.1 == BufferCst::reported(buffer@, parsed),
    {
        match parsed {
            Ok(cst) => {
                if cst.is_well_formed() && cst.fits_text(buffer.as_str())
                    && cst.names_its_definitions() {
                    (BufferCst { buffer, cst: Some(cst) }, None)
                } else {
                    (BufferCst { buffer, cst: None }, Some(ParseError::InvariantViolation))
                }
            },
            Err(error) => (BufferCst { buffer, cst: None }, Some(error)),
        }
    }

    /// The text.
    pub fn buffer(&self) -> (text: &str)
        ensures
            text@ == self.text(),
    {
        self.buffer.as_str()
    }

    /// The syntax tree of the text, if it has one. It is well-formed, and
    /// every range in it fits the text.
    pub fn cst(&self) -> (r: Option<&Cst>)
        ensures
            match r {
                Some(cst) => self.tree() == Some(cst@) && BufferCst::admits(self.text(), cst@),
                None => self.tree() is None,
            },
    {
        proof {
            use_type_invariant(self);
        }
        match &self.cst {
            Some(cst) => Some(cst),
            None => None,
        }
    }

    /// The part of the text that the node covers.
    pub fn as_str(&self, cst: &Cst) -> (part: &str)
        requires
            fits(cst.range, self.bytes()),
        ensures
            part.spec_bytes() == bytes_between(self.bytes(), cst.range),
            part@ == text_between(self.bytes(), cst.range),
    {
        cst.as_str(self.buffer.as_str())
    }

    /// The part of the text that the node covers, where its range lies
    /// within the text with both ends on character boundaries.
    pub fn substring(&self, cst: &Cst) -> (r: Option<&str>)
        ensures
            match r {
                Some(part) => fits(cst.range, self.bytes()) && part@ == text_between(
                    self.bytes(),
                    cst.range,
                ),
                None => !fits(cst.range, self.bytes()),
            },
    {
        if range_fits(self.buffer.as_str(), &cst.range) {
            Some(cst.as_str(self.buffer.as_str()))
        } else {
            None
        }
    }

    /// The mode at a position: that of the tree, and program mode where the
    /// text has no tree.
    pub open spec fn mode_at(&self, pos: DocPosition) -> Mode {
        match self.tree() {
            Some(tree) => tree.mode_at(pos),
            None => Mode::Program,
        }
    }

    /// The mode at a position: that of the tree, and program mode where the
    /// text has no tree.
    pub fn mode(&self, pos: &DocPosition) -> (mode: Mode)
        ensures
            mode == self.mode_at(*pos),
    {
        match &self.cst {
            Some(cst) => cst.mode(pos),
            None => Mode::Program,
        }
    }
}

/// A document: its text with the syntax tree, what went wrong in parsing it,
/// and the names that it defines.
#[derive(Debug)]
pub struct Buffer {
    /// The text and its syntax tree.
    pub buf_cst: BufferCst,
    /// What went wrong in parsing the text.
    pub error: Vec<ParseError>,
    /// The names that the document defines.
    pub env: Environment,
}

impl Buffer {
    /// A document whose environment is that of its text and tree.
    pub open spec fn wf(&self) -> bool {
        self.env@ == environment_of(self.buf_cst.tree(), self.buf_cst.bytes())
    }

    /// The document of a text and the outcome of parsing it. There is
    /// always a document: where parsing failed it has no tree and defines
    /// nothing, and the failure is kept as its error.
    pub fn new(text: String, parsed: Result<Cst, ParseError>) -> (buf: Buffer)
        ensures
            buf.buf_cst.text() == text@,
            buf.buf_cst.tree() == BufferCst::kept(text@, parsed),
            buf.error@ == match BufferCst::reported(text@, parsed) {
                Some(error) => seq![error],
                None => Seq::empty(),
            },
            buf.wf(),
    {
        let (buf_cst, reported) = BufferCst::parse_into(text, parsed);
        let mut error: Vec<ParseError> = Vec::new();
        match reported {
            Some(e) => {
                error.push(e);
                assert(error@ =~= seq![e]);
            },
            None => {},
        }
        let env = Environment::new(&buf_cst);
        Buffer { buf_cst, error, env }
    }

    /// The mode at a position: that of the tree, and program mode where the
    /// document has no tree.
    pub fn mode(&self, pos: &DocPosition) -> (mode: Mode)
        ensures
            mode == self.buf_cst.mode_at(*pos),
    {
        self.buf_cst.mode(pos)
    }

    /// The names that the document defines.
    pub fn environment(&self) -> (env: &Environment)
        ensures
            env == &self.env,
    {
        &self.env
    }
}

/// Every node of a tree that a text is held with has its text there: the
/// range of the root and of every node below it fits the text.
pub proof fn lemma_every_node_fits(text: Seq<char>, tree: Tree)
    requires
        BufferCst::admits(text, tree),
    ensures
        fits(tree.range, encode_utf8(text)),
        forall|k: int|
            0 <= k < tree.descendants().len() ==> fits(
                (#[trigger] tree.descendants()[k]).range,
                encode_utf8(text),
            ),
{
    let p = node_fits(encode_utf8(text));
    tree.lemma_all_descendants(p);
    assert forall|k: int| 0 <= k < tree.descendants().len() implies fits(
        (#[trigger] tree.descendants()[k]).range,
        encode_utf8(text),
    ) by {
        assert(tree.descendants()[k].all(p));
        assert(p(tree.descendants()[k]));
    }
    assert(p(tree));
}

/// A document without a tree defines nothing, and its mode is program mode
/// everywhere.
pub proof fn lemma_no_tree_defaults(buf: Buffer, pos: DocPosition)
    requires
        buf.wf(),
        buf.buf_cst.tree() is None,
    ensures
        buf.env@.inline_cmds.len() == 0,
        buf.env@.block_cmds.len() == 0,
        buf.env@.math_cmds.len() == 0,
        buf.env@.variables.len() == 0,
        buf.buf_cst.mode_at(pos) == Mode::Program,
{
}

} // verus!
