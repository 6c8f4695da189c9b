//! From the scope path of a recorded signal to the module type that the
//! scope stands for.

use crate::registry::{alias_models, module_models, Registry};
use crate::schema::{texts, AliasEntry, AliasModel, BlockModel};
use vstd::prelude::*;

verus! {

/// Why a scope path could not be resolved.
#[derive(Debug, Clone, Copy, PartialEq, Eq, Structural)]
pub enum ResolveError {
    /// No line of the alias table has a path that begins the scope path.
    ScopeNotFound,
}

impl ResolveError {
    /// The error in words.
    pub fn message(&self) -> (text: String)
        ensures
            text@ == "Initial scope not found in maps"@,
    {
        "Initial scope not found in maps".to_owned()
    }
}

/// Whether the scope path `path` begins with `prefix`.
pub open spec fn begins_with(path: Seq<Seq<char>>, prefix: Seq<Seq<char>>) -> bool {
    prefix.len() <= path.len() && path.take(prefix.len() as int) == prefix
}

/// The index of the first line of `aliases` whose path begins `path`, or the
/// length of `aliases` when there is none.
pub open spec fn anchor(aliases: Seq<AliasModel>, path: Seq<Seq<char>>) -> int
    decreases aliases.len(),
{
    if aliases.len() == 0 {
        0
    } else {
        let before = anchor(aliases.drop_last(), path);
        if before < aliases.len() - 1 {
            before
        } else if begins_with(path, aliases.last().path) {
            aliases.len() - 1
        } else {
            aliases.len() as int
        }
    }
}

/// `anchor` is the least index whose line begins the path.
pub proof fn lemma_anchor(aliases: Seq<AliasModel>, path: Seq<Seq<char>>)
    ensures
        0 <= anchor(aliases, path) <= aliases.len(),
        anchor(aliases, path) < aliases.len() ==> begins_with(
            path,
            aliases[anchor(aliases, path)].path,
        ),
        forall|j: int| 0 <= j < anchor(aliases, path) ==> !begins_with(path, (#[trigger] aliases[j]).path),
    decreases aliases.len(),
{
    if aliases.len() > 0 {
        let front = aliases.drop_last();
        lemma_anchor(front, path);
        assert forall|j: int| 0 <= j < anchor(aliases, path) implies !begins_with(
            path,
            (#[trigger] aliases[j]).path,
        ) by {
            if j < front.len() {
                assert(front[j] == aliases[j]);
            }
        }
    }
}

/// A line that begins the path, with none before it that does, is the
/// anchor.
pub proof fn lemma_anchor_is(aliases: Seq<AliasModel>, path: Seq<Seq<char>>, a: int)
    requires
        0 <= a <= aliases.len(),
        forall|j: int| 0 <= j < a ==> !begins_with(path, (#[trigger] aliases[j]).path),
        a < aliases.len() ==> begins_with(path, aliases[a].path),
    ensures
        anchor(aliases, path) == a,
{
    lemma_anchor(aliases, path);
    let r = anchor(aliases, path);
    if r < a {
        assert(!begins_with(path, aliases[r].path));
    }
    if a < r {
        assert(!begins_with(path, aliases[a].path));
    }
}

/// The module type reached from `current` by the instance names `rest`:
/// each name that is a block of the module at hand leads on to that block's
/// type; at the first name that is not, the descent stops where it is.
pub open spec fn descend(
    modules: Map<Seq<char>, Map<Seq<char>, BlockModel>>,
    current: Seq<char>,
    rest: Seq<Seq<char>>,
) -> Seq<char>
    decreases rest.len(),
{
    if rest.len() == 0 {
        current
    } else if modules.contains_key(current) && modules[current].contains_key(rest[0]) {
        descend(modules, modules[current][rest[0]].ty_name, rest.drop_first())
    } else {
        current
    }
}

/// The module type that the scope path `path` stands for: the first line of
/// the alias table whose path begins `path` gives the module type to start
/// from, and the rest of `path` is descended from there. `None` where no
/// line begins the path.
pub open spec fn resolve_module(
    aliases: Seq<AliasModel>,
    modules: Map<Seq<char>, Map<Seq<char>, BlockModel>>,
    path: Seq<Seq<char>>,
) -> Option<Seq<char>> {
    let a = anchor(aliases, path);
    if a < aliases.len() {
        Some(descend(modules, aliases[a].implementation, path.skip(aliases[a].path.len() as int)))
    } else {
        None
    }
}

/// Whether `path` begins with `prefix`.
pub fn path_begins_with(path: &[String], prefix: &Vec<String>) -> (yes: bool)
    ensures
        yes == begins_with(texts(path@), texts(prefix@)),
{
    if prefix.len() > path.len() {
        return false;
    }
    let mut i: usize = 0;
    while i < prefix.len()
        invariant
            i <= prefix@.len() <= path@.len(),
            forall|j: int| 0 <= j < i ==> path@[j]@ == prefix@[j]@,
        decreases prefix@.len() - i,
    {
        if path[i] != prefix[i] {
            assert(texts(path@).take(prefix@.len() as int)[i as int] != texts(prefix@)[i as int]);
            return false;
        }
        i += 1;
    }
    assert(texts(path@).take(prefix@.len() as int) =~= texts(prefix@));
    true
}

/// The module type that the scope path stands for: see `resolve_module`.
pub fn get_current_module(reg: &Registry, scope_path: &[String]) -> (r: Result<String, ResolveError>)
    ensures
        match r {
            Ok(name) => resolve_module(
                alias_models(reg.aliases@),
                module_models(reg.modules@),
                texts(scope_path@),
            ) == Some(name@),
            Err(e) => e == ResolveError::ScopeNotFound && resolve_module(
                alias_models(reg.aliases@),
                module_models(reg.modules@),
                texts(scope_path@),
            ) is None,
        },
{
    let ghost aliases = alias_models(reg.aliases@);
    let ghost modules = module_models(reg.modules@);
    let ghost path = texts(scope_path@);
    let mut a: usize = 0;
    while a < reg.aliases.len() && !path_begins_with(scope_path, &reg.aliases[a].path)
        invariant
            a <= reg.aliases@.len(),
            aliases == alias_models(reg.aliases@),
            path == texts(scope_path@),
            forall|j: int| 0 <= j < a ==> !begins_with(path, (#[trigger] aliases[j]).path),
        decreases reg.aliases@.len() - a,
    {
        a += 1;
    }
    proof {
        lemma_anchor_is(aliases, path, a as int);
    }
    if a == reg.aliases.len() {
        return Err(ResolveError::ScopeNotFound);
    }
    let entry: &AliasEntry = &reg.aliases[a];
    let mut current: String = entry.implementation.clone();
    let mut i: usize = entry.path.len();
    let ghost goal = descend(modules, aliases[a as int].implementation, path.skip(i as int));
    while i < scope_path.len()
        invariant
            i <= scope_path@.len(),
            modules == module_models(reg.modules@),
            path == texts(scope_path@),
            goal == descend(modules, current@, path.skip(i as int)),
            resolve_module(alias_models(reg.aliases@), modules, path) == Some(goal),
        decreases scope_path@.len() - i,
    {
        assert(path.skip(i as int).drop_first() =~= path.skip(i + 1));
        assert(path.skip(i as int)[0] == scope_path@[i as int]@);
        let next = match reg.modules.get(current.as_str()) {
            Some(module) => match module.blocks.get(scope_path[i].as_str()) {
                Some(block) => Some(block.block_type_name.clone()),
                None => None,
            },
            None => None,
        };
        match next {
            Some(name) => {
                current = name;
            },
            None => {
                return Ok(current);
            },
        }
        i += 1;
    }
    Ok(current)
}

} // verus!
