//! What can be completed at the cursor.
//!
//! Which names are offered depends on the mode at the cursor and on the
//! character that asked for completion: variables and the primitives in
//! program mode, and the commands of a mode after the character that
//! begins a command there.

use vstd::prelude::*;
use vstd::string::*;
use vstd::utf8::*;
use crate::buffer::Buffer;
use crate::environment::{bindings, Binding, Bindings, Defined, Environment};
use crate::parser::{text_eq, Mode};
use crate::position::DocPosition;

verus! {

/// Something that is offered for completion.
#[derive(Debug)]
pub struct Candidate {
    /// What is shown, and what is inserted where `insert_text` is none.
    pub label: String,
    /// More about the candidate, such as its type.
    pub detail: Option<String>,
    /// What the candidate is for, in Markdown.
    pub documentation: Option<String>,
    /// What is inserted when the candidate is picked.
    pub insert_text: Option<String>,
    /// Whether `insert_text` is a snippet rather than plain text.
    pub snippet: bool,
}

/// A candidate as a mathematical value.
pub struct Offer {
    /// What is shown.
    pub label: Seq<char>,
    /// More about the candidate.
    pub detail: Option<Seq<char>>,
    /// What the candidate is for.
    pub documentation: Option<Seq<char>>,
    /// What is inserted when the candidate is picked.
    pub insert_text: Option<Seq<char>>,
    /// Whether `insert_text` is a snippet.
    pub snippet: bool,
}

/// The text of an optional string.
pub open spec fn text_of(s: Option<String>) -> Option<Seq<char>> {
    match s {
        Some(s) => Some(s@),
        None => None,
    }
}

impl View for Candidate {
    type V = Offer;

    open spec fn view(&self) -> Offer {
        Offer {
            label: self.label@,
            detail: text_of(self.detail),
            documentation: text_of(self.documentation),
            insert_text: text_of(self.insert_text),
            snippet: self.snippet,
        }
    }
}

/// The offers of a list of candidates.
pub open spec fn offers(list: Seq<Candidate>) -> Seq<Offer> {
    list.map_values(|c: Candidate| c@)
}

/// The offer of a name as it is, with the name as its detail.
pub open spec fn simple_offer(label: Seq<char>, detail: Seq<char>) -> Offer {
    Offer {
        label,
        detail: Some(detail),
        documentation: None,
        insert_text: None,
        snippet: false,
    }
}

/// A name without its first character, where that character is one byte
/// long; none for other names.
pub open spec fn after_sigil(name: Seq<char>) -> Option<Seq<char>> {
    let bytes = encode_utf8(name);
    if is_char_boundary(bytes, 1) {
        Some(decode_utf8(bytes.subrange(1, bytes.len() as int)))
    } else {
        None
    }
}

/// The offer of a command: its name is shown, and what follows the
/// character that begins it is inserted.
pub open spec fn command_offer(name: Seq<char>) -> Offer {
    Offer {
        label: name,
        detail: Some(name),
        documentation: None,
        insert_text: after_sigil(name),
        snippet: false,
    }
}

/// The offers of the variables of a list.
pub open spec fn simple_offers(list: Seq<Binding>) -> Seq<Offer> {
    list.map_values(|b: Binding| simple_offer(b.name, b.name))
}

/// The offers of the commands of a list.
pub open spec fn command_offers(list: Seq<Binding>) -> Seq<Offer> {
    list.map_values(|b: Binding| command_offer(b.name))
}

/// Whether completion was asked for by the character `sigil`.
pub open spec fn triggered_by(trigger: Option<Seq<char>>, sigil: Seq<char>) -> bool {
    trigger == Some(sigil)
}

/// Whether the primitives are among what is offered: in program mode, where
/// no character asked for completion.
pub open spec fn primitives_wanted(mode: Mode, trigger: Option<Seq<char>>) -> bool {
    mode == Mode::Program && trigger is None
}

/// What is offered in a mode, given what the document defines, the
/// character that asked for completion and the primitives. None where the
/// primitives are wanted and there are none.
pub open spec fn offers_in(
    mode: Mode,
    env: Bindings,
    trigger: Option<Seq<char>>,
    primitives: Option<Seq<Offer>>,
) -> Option<Seq<Offer>> {
    match mode {
        Mode::Program => if trigger is Some {
            Some(Seq::empty())
        } else {
            match primitives {
                Some(primitives) => Some(simple_offers(env.variables) + primitives),
                None => None,
            }
        },
        Mode::Math => if triggered_by(trigger, "\\"@) {
            Some(command_offers(env.math_cmds))
        } else {
            Some(Seq::empty())
        },
        Mode::Horizontal => if triggered_by(trigger, "\\"@) {
            Some(command_offers(env.inline_cmds))
        } else {
            Some(Seq::empty())
        },
        Mode::Vertical => if triggered_by(trigger, "+"@) {
            Some(command_offers(env.block_cmds))
        } else {
            Some(Seq::empty())
        },
        _ => Some(Seq::empty()),
    }
}

/// What is offered at a position of a document: nothing where it has no
/// tree or where the primitives are wanted and there are none, and else
/// what is offered in the mode at the position.
pub open spec fn offers_at(
    buf: Buffer,
    pos: DocPosition,
    trigger: Option<Seq<char>>,
    primitives: Option<Seq<Offer>>,
) -> Seq<Offer> {
    match buf.buf_cst.tree() {
        Some(tree) => match offers_in(tree.mode_at(pos), buf.env@, trigger, primitives) {
            Some(list) => list,
            None => Seq::empty(),
        },
        None => Seq::empty(),
    }
}

/// A name without its first character, where that character is one byte
/// long.
pub fn strip_sigil(name: &str) -> (r: Option<String>)
    ensures
        text_of(r) == after_sigil(name@),
{
    if name.is_char_boundary(1) {
        let (_, rest) = name.split_at(1);
        proof {
            encode_utf8_decode_utf8(rest@);
        }
        Some(rest.to_owned())
    } else {
        None
    }
}

/// Whether completion was asked for by the character `sigil`.
pub fn is_triggered_by(trigger: &Option<String>, sigil: &str) -> (r: bool)
    ensures
        r == triggered_by(text_of(*trigger), sigil@),
{
    match trigger {
        Some(trigger) => text_eq(trigger.as_str(), sigil),
        None => false,
    }
}

/// Whether a format of insert text means a snippet.
pub fn is_snippet(format: &Option<String>) -> (r: bool)
    ensures
        r == (text_of(*format) == Some("snippet"@)),
{
    is_triggered_by(format, "snippet")
}

impl Candidate {
    /// The candidate that shows `label` with `detail` and inserts the
    /// label.
    pub fn new_simple(label: String, detail: String) -> (made: Candidate)
        ensures
            made@ == simple_offer(label@, detail@),
    {
        Candidate {
            label,
            detail: Some(detail),
            documentation: None,
            insert_text: None,
            snippet: false,
        }
    }

    /// The candidate of a command: its name is shown, and what follows the
    /// character that begins it is inserted.
    pub fn of_command(name: &String) -> (made: Candidate)
        ensures
            made@ == command_offer(name@),
    {
        let insert_text = strip_sigil(name.as_str());
        Candidate {
            label: name.clone(),
            detail: Some(name.clone()),
            documentation: None,
            insert_text,
            snippet: false,
        }
    }

    /// The candidate that a completion resource describes. Its insert text
    /// is a snippet where the format is `snippet`.
    pub fn from_resource(
        label: String,
        detail: Option<String>,
        documentation: Option<String>,
        insert_text: Option<String>,
        insert_text_format: Option<String>,
    ) -> (made: Candidate)
        ensures
            made@ == (Offer {
                label: label@,
                detail: text_of(detail),
                documentation: text_of(documentation),
                insert_text: text_of(insert_text),
                snippet: text_of(insert_text_format) == Some("snippet"@),
            }),
    {
        let snippet = is_snippet(&insert_text_format);
        Candidate { label, detail, documentation, insert_text, snippet }
    }
}

/// The candidates of the variables of a list.
fn simple_candidates<T: Defined>(list: &Vec<T>) -> (made: Vec<Candidate>)
    ensures
        offers(made@) == simple_offers(bindings(list@)),
{
    let mut made: Vec<Candidate> = Vec::new();
    let mut i: usize = 0;
    while i < list.len()
        invariant
            i <= list.len(),
            offers(made@) =~= simple_offers(bindings(list@).subrange(0, i as int)),
        decreases list.len() - i,
    {
        let ghost before = made@;
        let name = list[i].name();
        made.push(Candidate::new_simple(name.clone(), name.clone()));
        proof {
            let offer = simple_offer(name@, name@);
            assert(offers(made@) =~= offers(before).push(offer));
            assert(simple_offers(bindings(list@).subrange(0, i + 1)) =~= simple_offers(
                bindings(list@).subrange(0, i as int),
            ).push(offer));
        }
        i += 1;
    }
    assert(bindings(list@).subrange(0, i as int) =~= bindings(list@));
    made
}

/// The candidates of the commands of a list.
fn command_candidates<T: Defined>(list: &Vec<T>) -> (made: Vec<Candidate>)
    ensures
        offers(made@) == command_offers(bindings(list@)),
{
    let mut made: Vec<Candidate> = Vec::new();
    let mut i: usize = 0;
    while i < list.len()
        invariant
            i <= list.len(),
            offers(made@) =~= command_offers(bindings(list@).subrange(0, i as int)),
        decreases list.len() - i,
    {
        let ghost before = made@;
        let name = list[i].name();
        made.push(Candidate::of_command(name));
        proof {
            let offer = command_offer(name@);
            assert(offers(made@) =~= offers(before).push(offer));
            assert(command_offers(bindings(list@).subrange(0, i + 1)) =~= command_offers(
                bindings(list@).subrange(0, i as int),
            ).push(offer));
        }
        i += 1;
    }
    assert(bindings(list@).subrange(0, i as int) =~= bindings(list@));
    made
}

/// The offers of an optional list of candidates.
pub open spec fn offers_of(list: Option<Vec<Candidate>>) -> Option<Seq<Offer>> {
    match list {
        Some(list) => Some(offers(list@)),
        None => None,
    }
}

/// No candidates.
fn no_candidates() -> (made: Vec<Candidate>)
    ensures
        offers(made@) == Seq::<Offer>::empty(),
{
    let made: Vec<Candidate> = Vec::new();
    assert(offers(made@) =~= Seq::<Offer>::empty());
    made
}

/// Whether the primitives are among what is offered: in program mode, where
/// no character asked for completion.
pub fn needs_primitives(mode: Mode, trigger: &Option<String>) -> (r: bool)
    ensures
        r == primitives_wanted(mode, text_of(*trigger)),
{
    match mode {
        Mode::Program => trigger.is_none(),
        _ => false,
    }
}

/// What is offered in a mode, given what the document defines, the
/// character that asked for completion and the primitives.
pub fn load_completion_resources(
    mode: Mode,
    env: &Environment,
    trigger: &Option<String>,
    primitives: Option<Vec<Candidate>>,
) -> (r: Option<Vec<Candidate>>)
    ensures
        offers_of(r) == offers_in(mode, env@, text_of(*trigger), offers_of(primitives)),
{
    match mode {
        Mode::Program => {
            if trigger.is_some() {
                Some(no_candidates())
            } else {
                match primitives {
                    Some(primitives) => {
                        let mut primitives = primitives;
                        let ghost given = primitives@;
                        let mut vars = simple_candidates(&env.variables);
                        let ghost own = vars@;
                        vars.append(&mut primitives);
                        assert(offers(vars@) =~= offers(own) + offers(given));
                        Some(vars)
                    },
                    None => None,
                }
            }
        },
        Mode::Math => {
            if is_triggered_by(trigger, "\\") {
                Some(command_candidates(&env.math_cmds))
            } else {
                Some(no_candidates())
            }
        },
        Mode::Horizontal => {
            if is_triggered_by(trigger, "\\") {
                Some(command_candidates(&env.inline_cmds))
            } else {
                Some(no_candidates())
            }
        },
        Mode::Vertical => {
            if is_triggered_by(trigger, "+") {
                Some(command_candidates(&env.block_cmds))
            } else {
                Some(no_candidates())
            }
        },
        _ => Some(no_candidates()),
    }
}

/// What is offered at a position of a document.
pub fn get_completion_list(
    buf: &Buffer,
    pos: &DocPosition,
    trigger: &Option<String>,
    primitives: Option<Vec<Candidate>>,
) -> (list: Vec<Candidate>)
    ensures
        offers(list@) == offers_at(*buf, *pos, text_of(*trigger), offers_of(primitives)),
{
    let cst = match buf.buf_cst.cst() {
        Some(cst) => cst,
        None => {
            return no_candidates();
        },
    };
    let mode = cst.mode(pos);
    match load_completion_resources(mode, &buf.env, trigger, primitives) {
        Some(list) => list,
        None => no_candidates(),
    }
}

/// What is offered at a position of a document; there is always an answer.
pub fn get_completion_response(
    buf: &Buffer,
    pos: &DocPosition,
    trigger: &Option<String>,
    primitives: Option<Vec<Candidate>>,
) -> (r: Option<Vec<Candidate>>)
    ensures
        offers_of(r) == Some(offers_at(*buf, *pos, text_of(*trigger), offers_of(primitives))),
{
    Some(get_completion_list(buf, pos, trigger, primitives))
}

} // verus!
