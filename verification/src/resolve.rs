//! Resolution: giving each declared variable its value, by precedence of the sources.
//!
//! The environment comes first, then the settings read from documents, then the defaults of
//! rank `Binary`, then those of rank `Library`.

use crate::declaration::{owned_text_of, Priority, RequiredVar};
use crate::registry::{
    declares, gives_default, last_default, lemma_declares_one_more, lemma_last_default_at,
    lemma_last_default_some, Registry,
};
use crate::settings::{Environment, Settings};
use vstd::prelude::*;

verus! {

/// The value that the sources below the environment supply for `name`: the one in
/// `merged`, else the `Binary` default, else the `Library` default.
pub open spec fn supplied(
    declarations: Seq<RequiredVar>,
    merged: Map<Seq<char>, Seq<char>>,
    name: Seq<char>,
) -> Option<Seq<char>> {
    if merged.contains_key(name) {
        Some(merged[name])
    } else if last_default(declarations, name, Priority::Binary) is Some {
        last_default(declarations, name, Priority::Binary)
    } else {
        last_default(declarations, name, Priority::Library)
    }
}

/// The environment after resolution. What was set stays as it was. A declared name that
/// was not set gets the value supplied for it, or stays unset where none is supplied. No
/// other name is touched.
pub open spec fn resolved(
    declarations: Seq<RequiredVar>,
    merged: Map<Seq<char>, Seq<char>>,
    env: Map<Seq<char>, Seq<char>>,
) -> Map<Seq<char>, Seq<char>> {
    Map::new(
        |name: Seq<char>|
            env.contains_key(name) || (declares(declarations, name) && supplied(
                declarations,
                merged,
                name,
            ) is Some),
        |name: Seq<char>|
            if env.contains_key(name) {
                env[name]
            } else {
                supplied(declarations, merged, name)->Some_0
            },
    )
}

/// The value supplied for `name` by the settings and the defaults.
pub fn supply(registry: &Registry, merged: &Settings, name: &str) -> (value: Option<String>)
    ensures
        owned_text_of(value) == supplied(registry@, merged@, name@),
{
    match merged.get(name) {
        Some(text) => Some(text.clone()),
        None => match registry.default_of(name, Priority::Binary) {
            Some(text) => Some(text.to_owned()),
            None => match registry.default_of(name, Priority::Library) {
                Some(text) => Some(text.to_owned()),
                None => None,
            },
        },
    }
}

/// Resolves every declared variable in `env`.
pub fn resolve(registry: &Registry, merged: &Settings, env: &mut Environment)
    ensures
        final(env)@ == resolved(registry@, merged@, old(env)@),
{
    let declarations = registry.declarations();
    let ghost start = env@;
    let mut i: usize = 0;
    while i < declarations.len()
        invariant
            i <= declarations@.len(),
            declarations@ == registry@,
            forall|name: Seq<char>| #[trigger]
                env@.contains_key(name) <==> start.contains_key(name) || (declares(
                    declarations@.take(i as int),
                    name,
                ) && supplied(declarations@, merged@, name) is Some),
            forall|name: Seq<char>|
                #![trigger env@[name]]
                env@.contains_key(name) ==> env@[name] == if start.contains_key(name) {
                    start[name]
                } else {
                    supplied(declarations@, merged@, name)->Some_0
                },
        decreases declarations@.len() - i,
    {
        let name = declarations[i].name;
        proof {
            assert forall|other: Seq<char>|
                declares(declarations@.take(i + 1), other) <==> declares(
                    declarations@.take(i as int),
                    other,
                ) || other == name@ by {
                lemma_declares_one_more(declarations@, i as int, other);
            }
        }
        if !env.is_set(name) {
            match supply(registry, merged, name) {
                Some(value) => {
                    env.set_var(name, value.as_str());
                },
                None => {},
            }
        }
        i += 1;
    }
    proof {
        assert(declarations@.take(i as int) == declarations@);
        assert(env@ =~= resolved(registry@, merged@, start));
    }
}

/// A declared variable that neither the environment nor a document sets, and for which no
/// declaration of rank `Binary` gives a default, is set to the `Library` default that was
/// registered last.
pub proof fn library_default_applies(
    declarations: Seq<RequiredVar>,
    merged: Map<Seq<char>, Seq<char>>,
    env: Map<Seq<char>, Seq<char>>,
    at: int,
)
    requires
        0 <= at < declarations.len(),
        declarations[at].priority == Priority::Library,
        declarations[at].default is Some,
        forall|j: int|
            at < j < declarations.len() ==> !gives_default(
                #[trigger] declarations[j],
                declarations[at].name@,
                Priority::Library,
            ),
        forall|j: int|
            0 <= j < declarations.len() ==> !gives_default(
                #[trigger] declarations[j],
                declarations[at].name@,
                Priority::Binary,
            ),
        !env.contains_key(declarations[at].name@),
        !merged.contains_key(declarations[at].name@),
    ensures
        resolved(declarations, merged, env).contains_key(declarations[at].name@),
        resolved(declarations, merged, env)[declarations[at].name@]
            == declarations[at].default->Some_0@,
{
    let name = declarations[at].name@;
    lemma_last_default_some(declarations, name, Priority::Binary);
    lemma_last_default_at(declarations, name, Priority::Library, at);
}

/// A default of rank `Binary` is preferred to every default of rank `Library` for the same
/// name, wherever the declarations stand in the order of registration: a variable that
/// neither the environment nor a document sets gets the `Binary` default that was
/// registered last.
pub proof fn binary_default_overrides_library(
    declarations: Seq<RequiredVar>,
    merged: Map<Seq<char>, Seq<char>>,
    env: Map<Seq<char>, Seq<char>>,
    at: int,
)
    requires
        0 <= at < declarations.len(),
        declarations[at].priority == Priority::Binary,
        declarations[at].default is Some,
        forall|j: int|
            at < j < declarations.len() ==> !gives_default(
                #[trigger] declarations[j],
                declarations[at].name@,
                Priority::Binary,
            ),
        !env.contains_key(declarations[at].name@),
        !merged.contains_key(declarations[at].name@),
    ensures
        resolved(declarations, merged, env).contains_key(declarations[at].name@),
        resolved(declarations, merged, env)[declarations[at].name@]
            == declarations[at].default->Some_0@,
{
    let name = declarations[at].name@;
    lemma_last_default_at(declarations, name, Priority::Binary, at);
}

/// What the environment holds is never changed by resolution, whatever the documents and
/// the defaults say.
pub proof fn environment_is_kept(
    declarations: Seq<RequiredVar>,
    merged: Map<Seq<char>, Seq<char>>,
    env: Map<Seq<char>, Seq<char>>,
    name: Seq<char>,
)
    requires
        env.contains_key(name),
    ensures
        resolved(declarations, merged, env).contains_key(name),
        resolved(declarations, merged, env)[name] == env[name],
{
}

/// A declared variable that the environment does not set and a document sets gets the
/// value of the document, whatever the defaults say.
pub proof fn document_overrides_defaults(
    declarations: Seq<RequiredVar>,
    merged: Map<Seq<char>, Seq<char>>,
    env: Map<Seq<char>, Seq<char>>,
    name: Seq<char>,
)
    requires
        declares(declarations, name),
        !env.contains_key(name),
        merged.contains_key(name),
    ensures
        resolved(declarations, merged, env).contains_key(name),
        resolved(declarations, merged, env)[name] == merged[name],
{
}

} // verus!
