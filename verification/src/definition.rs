//! Where the command under the cursor is defined.

use vstd::prelude::*;
use vstd::string::*;
use crate::buffer::{node_fits, text_between, Buffer};
use crate::cst::{views, Cst, Tree};
use crate::environment::{bindings, Binding, Bindings, Defined};
use crate::parser::{text_eq, Rule};
use crate::position::{DocPosition, DocRange};

verus! {

/// The first command name in a chain of nodes.
pub open spec fn keyword_of(chain: Seq<Tree>) -> Option<Tree>
    decreases chain.len(),
{
    if chain.len() == 0 {
        None
    } else if chain[0].rule.is_cmd_name() {
        Some(chain[0])
    } else {
        keyword_of(chain.drop_first())
    }
}

/// The last definition of `name` in a list, if it is defined there.
pub open spec fn last_named(list: Seq<Binding>, name: Seq<char>) -> Option<Binding>
    decreases list.len(),
{
    if list.len() == 0 {
        None
    } else if list.last().name == name {
        Some(list.last())
    } else {
        last_named(list.drop_last(), name)
    }
}

/// The definitions among which a command name of kind `rule` is looked up.
pub open spec fn definitions_for(env: Bindings, rule: Rule) -> Seq<Binding> {
    if rule == Rule::math_cmd_name {
        env.math_cmds
    } else if rule == Rule::inline_cmd_name {
        env.inline_cmds
    } else {
        env.block_cmds
    }
}

/// Where the command is defined whose name is the innermost command name
/// around `pos`: the range of the last definition of that name among the
/// commands of its kind. None where the document has no tree, where no
/// command name is around `pos`, and where the name is not defined.
pub open spec fn definition_at(tree: Option<Tree>, bytes: Seq<u8>, env: Bindings, pos: DocPosition) -> Option<
    DocRange,
> {
    match tree {
        Some(root) => match keyword_of(root.dig(pos)) {
            Some(keyword) => match last_named(
                definitions_for(env, keyword.rule),
                text_between(bytes, keyword.range),
            ) {
                Some(binding) => Some(binding.def_range),
                None => None,
            },
            None => None,
        },
        None => None,
    }
}

/// Whether a node of kind `rule` is the name of a command.
pub fn is_cmd_name(rule: Rule) -> (r: bool)
    ensures
        r == rule.is_cmd_name(),
{
    match rule {
        Rule::math_cmd_name | Rule::inline_cmd_name | Rule::block_cmd_name => true,
        _ => false,
    }
}

/// The innermost command name around `pos`, if there is one.
pub fn find_keyword<'a>(cst: &'a Cst, pos: &DocPosition) -> (r: Option<&'a Cst>)
    ensures
        match r {
            Some(keyword) => keyword_of(cst@.dig(*pos)) == Some(keyword@),
            None => keyword_of(cst@.dig(*pos)) is None,
        },
{
    let keywords = cst.dig(pos);
    let ghost chain = views(keywords@);
    let mut i: usize = 0;
    assert(chain.subrange(0, chain.len() as int) =~= chain);
    while i < keywords.len()
        invariant
            i <= keywords.len(),
            chain == views(keywords@),
            chain == cst@.dig(*pos),
            keyword_of(chain) == keyword_of(chain.subrange(i as int, chain.len() as int)),
        decreases keywords.len() - i,
    {
        let ghost rest = chain.subrange(i as int, chain.len() as int);
        proof {
            keywords[i as int].lemma_view();
            assert(rest[0] == keywords[i as int]@);
            assert(rest.drop_first() =~= chain.subrange(i + 1, chain.len() as int));
        }
        if is_cmd_name(keywords[i].rule) {
            return Some(keywords[i]);
        }
        i += 1;
    }
    None
}

/// The range of the last definition of `name` in a list, if it is defined
/// there.
pub fn last_definition<T: Defined>(list: &Vec<T>, name: &str) -> (r: Option<DocRange>)
    ensures
        r == match last_named(bindings(list@), name@) {
            Some(binding) => Some(binding.def_range),
            None => None,
        },
{
    let mut i: usize = list.len();
    assert(bindings(list@).subrange(0, i as int) =~= bindings(list@));
    while i > 0
        invariant
            i <= list.len(),
            last_named(bindings(list@), name@) == last_named(
                bindings(list@).subrange(0, i as int),
                name@,
            ),
        decreases i,
    {
        let ghost upto = bindings(list@).subrange(0, i as int);
        proof {
            assert(upto.last() == list[i - 1].binding());
            assert(upto.drop_last() =~= bindings(list@).subrange(0, i - 1));
        }
        if text_eq(list[i - 1].name().as_str(), name) {
            return Some(list[i - 1].def_range());
        }
        i -= 1;
    }
    None
}

/// Where the command is defined whose name is the innermost command name
/// around `pos`.
pub fn get_definition_response(buf: &Buffer, pos: &DocPosition) -> (r: Option<DocRange>)
    ensures
        r == definition_at(buf.buf_cst.tree(), buf.buf_cst.bytes(), buf.env@, *pos),
{
    let cst = match buf.buf_cst.cst() {
        Some(cst) => cst,
        None => {
            return None;
        },
    };
    let keyword = match find_keyword(cst, pos) {
        Some(keyword) => keyword,
        None => {
            return None;
        },
    };
    proof {
        cst@.lemma_all_dig(node_fits(buf.buf_cst.bytes()), *pos);
        lemma_keyword_in_chain(cst@.dig(*pos));
        keyword.lemma_view();
    }
    let cmd_name = buf.buf_cst.as_str(keyword);
    match keyword.rule {
        Rule::math_cmd_name => last_definition(&buf.env.math_cmds, cmd_name),
        Rule::inline_cmd_name => last_definition(&buf.env.inline_cmds, cmd_name),
        _ => last_definition(&buf.env.block_cmds, cmd_name),
    }
}

/// The first command name in a chain is a command name, and a node of the
/// chain.
pub proof fn lemma_keyword_in_chain(chain: Seq<Tree>)
    ensures
        keyword_of(chain) matches Some(keyword) ==> keyword.rule.is_cmd_name() && exists|k: int|
            0 <= k < chain.len() && chain[k] == keyword,
    decreases chain.len(),
{
    if chain.len() > 0 && !chain[0].rule.is_cmd_name() {
        lemma_keyword_in_chain(chain.drop_first());
        if keyword_of(chain) is Some {
            let keyword = keyword_of(chain).unwrap();
            let k = choose|k: int| 0 <= k < chain.drop_first().len() && chain.drop_first()[k] == keyword;
            assert(chain[k + 1] == keyword);
        }
    } else if chain.len() > 0 {
        assert(chain[0] == keyword_of(chain).unwrap());
    }
}

/// The definition that is found for a name is the one that comes last in
/// the list: it has the name, and none after it has; and none is found
/// only where no definition has the name.
pub proof fn lemma_last_named(list: Seq<Binding>, name: Seq<char>)
    ensures
        match last_named(list, name) {
            Some(binding) => exists|k: int|
                0 <= k < list.len() && list[k] == binding && binding.name == name && forall|j: int|
                    k < j < list.len() ==> (#[trigger] list[j]).name != name,
            None => forall|j: int| 0 <= j < list.len() ==> (#[trigger] list[j]).name != name,
        },
    decreases list.len(),
{
    if list.len() > 0 {
        if list.last().name == name {
            let k = list.len() - 1;
            assert(list[k] == list.last());
        } else {
            let before = list.drop_last();
            lemma_last_named(before, name);
            match last_named(before, name) {
                Some(binding) => {
                    let k = choose|k: int|
                        0 <= k < before.len() && before[k] == binding && binding.name == name
                            && forall|j: int|
                            k < j < before.len() ==> (#[trigger] before[j]).name != name;
                    assert(list[k] == binding);
                    assert forall|j: int| k < j < list.len() implies (#[trigger] list[j]).name
                        != name by {
                        if j < before.len() {
                            assert(before[j] == list[j]);
                        }
                    }
                },
                None => {
                    assert forall|j: int| 0 <= j < list.len() implies (#[trigger] list[j]).name
                        != name by {
                        if j < before.len() {
                            assert(before[j] == list[j]);
                        }
                    }
                },
            }
        }
    }
}

} // verus!
