//! Declared configuration parameters, resolved from several sources and validated.
//!
//! Any part of a program may declare that it depends on an environment variable, with or
//! without a default. The declarations are collected in a [`Registry`]. At startup the
//! program hands over the registry, the settings documents it has read, and the
//! environment as it stands. [`load_and_validate_env_vars`] merges the documents, gives
//! every declared variable its value by precedence, and reports the variables that are left
//! without one.
//!
//! The library reads no file and touches no variable of the process. Documents come in as
//! [`Source`] values, the environment as an [`Environment`], which the program writes back
//! afterwards.

pub mod declaration;
pub mod error;
pub mod expand;
pub mod loader;
pub mod registry;
pub mod resolve;
pub mod settings;
pub mod text;
pub mod validate;

pub use crate::declaration::{Priority, RequiredVar};
pub use crate::error::{EnvInventoryError, MissingVar};
pub use crate::expand::expanded_map;
pub use crate::loader::{load_toml_settings, merge_sources, Document, Source};
pub use crate::registry::Registry;
pub use crate::resolve::resolve;
pub use crate::settings::{Environment, Settings};
pub use crate::validate::{list_all_vars, validate_env_vars};

use crate::expand::{current_values, first_default, lemma_first_default_declared};
use crate::loader::merged_settings;
use crate::registry::{declares, gives_default, lemma_declares_one_more, lemma_last_default_some};
use crate::resolve::resolved;
use crate::validate::{failure_of, is_missing, validates};
use vstd::prelude::*;

verus! {

/// The value of every declared variable that has one.
pub fn map(registry: &Registry, env: &Environment) -> (values: Settings)
    ensures
        values@ == current_values(registry@, env@),
{
    let declarations = registry.declarations();
    let mut values = Settings::new();
    let mut i: usize = 0;
    proof {
        assert(values@ =~= current_values(declarations@.take(0), env@));
    }
    while i < declarations.len()
        invariant
            i <= declarations@.len(),
            declarations@ == registry@,
            values@ == current_values(declarations@.take(i as int), env@),
        decreases declarations@.len() - i,
    {
        let declaration = &declarations[i];
        let ghost held = values@;
        proof {
            let shorter = declarations@.take(i as int);
            let longer = declarations@.take(i + 1);
            assert(longer.drop_last() == shorter);
            assert(longer.last() == declarations@[i as int]);
            assert forall|name: Seq<char>|
                declares(longer, name) <==> declares(shorter, name) || declarations@[i as int].name@
                    == name by {
                lemma_declares_one_more(declarations@, i as int, name);
            }
            if first_default(shorter, declaration.name@) is Some {
                lemma_first_default_declared(shorter, declaration.name@);
            }
        }
        if !values.contains_key(declaration.name) {
            match declaration.get(env) {
                Some(value) => {
                    values.insert(declaration.name.to_owned(), value);
                },
                None => {},
            }
        }
        proof {
            assert(values@ =~= current_values(declarations@.take(i + 1), env@));
        }
        i += 1;
    }
    proof {
        assert(declarations@.take(i as int) == declarations@);
    }
    values
}

/// After resolution, a declared variable is without a value only where validation reports
/// it: every other declared variable is set.
pub proof fn valid_names_are_set(
    declarations: Seq<RequiredVar>,
    merged: Map<Seq<char>, Seq<char>>,
    env: Map<Seq<char>, Seq<char>>,
    name: Seq<char>,
)
    requires
        declares(declarations, name),
        !is_missing(declarations, resolved(declarations, merged, env), name),
    ensures
        resolved(declarations, merged, env).contains_key(name),
{
    if !resolved(declarations, merged, env).contains_key(name) {
        let i = choose|i: int|
            0 <= i < declarations.len() && (#[trigger] declarations[i]).name@ == name
                && declarations[i].default is Some;
        assert(gives_default(declarations[i], name, declarations[i].priority));
        lemma_last_default_some(declarations, name, Priority::Binary);
        lemma_last_default_some(declarations, name, Priority::Library);
    }
}

/// Merges the settings of `sources`, resolves every declared variable in `env`, and
/// validates the outcome.
///
/// Where the first source does not load, its error is returned and `env` stays as it was.
/// Else `env` is resolved against the merged settings, and the result is that of the
/// validation: on success every declared variable is set in `env`.
pub fn load_and_validate_env_vars(
    registry: &Registry,
    sources: &[Source],
    section: &str,
    env: &mut Environment,
) -> (result: Result<(), EnvInventoryError>)
    ensures
        match merged_settings(sources@, section@) {
            Err(error) => failure_of(result) == Some(error) && final(env)@ == old(env)@,
            Ok(merged) => final(env)@ == resolved(registry@, merged, old(env)@) && validates(
                registry@,
                final(env)@,
                failure_of(result),
            ),
        },
        result is Ok ==> forall|name: Seq<char>|
            declares(registry@, name) ==> final(env)@.contains_key(name),
{
    let merged = match merge_sources(sources, section) {
        Ok(merged) => merged,
        Err(error) => {
            return Err(error);
        },
    };
    let ghost start = env@;
    resolve(registry, &merged, env);
    let result = validate_env_vars(registry, env);
    proof {
        if result is Ok {
            assert forall|name: Seq<char>| declares(registry@, name) implies env@.contains_key(
                name,
            ) by {
                valid_names_are_set(registry@, merged@, start, name);
            }
        }
    }
    result
}

} // verus!
