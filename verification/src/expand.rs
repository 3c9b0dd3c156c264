//! The values of the declared variables, and their shell-like expansion.
//!
//! A value may refer to the home directory (a leading `~`) and to variables (`$NAME`,
//! `${NAME}`, `${NAME:-fallback}`). The expansion itself is the work of `shellexpand`; this
//! module decides which values are expanded, in which order, and what is done with them.

use crate::declaration::{text_of, RequiredVar};
use crate::error::{EnvInventoryError, ErrorView};
use crate::registry::{declares, Registry};
use crate::settings::{Environment, Settings};
use vstd::prelude::*;

verus! {

/// The default of the declaration registered first among those of `name` that have one.
pub open spec fn first_default(declarations: Seq<RequiredVar>, name: Seq<char>) -> Option<
    Seq<char>,
>
    decreases declarations.len(),
{
    if declarations.len() == 0 {
        None
    } else {
        match first_default(declarations.drop_last(), name) {
            Some(text) => Some(text),
            None => if declarations.last().name@ == name {
                text_of(declarations.last().default)
            } else {
                None
            },
        }
    }
}

/// The declared variables that have a value, each with the one set in `env`, else with
/// its first default.
pub open spec fn current_values(
    declarations: Seq<RequiredVar>,
    env: Map<Seq<char>, Seq<char>>,
) -> Map<Seq<char>, Seq<char>> {
    Map::new(
        |name: Seq<char>|
            declares(declarations, name) && (env.contains_key(name) || first_default(
                declarations,
                name,
            ) is Some),
        |name: Seq<char>|
            if env.contains_key(name) {
                env[name]
            } else {
                first_default(declarations, name)->Some_0
            },
    )
}

/// Only a declared name has a first default.
pub proof fn lemma_first_default_declared(declarations: Seq<RequiredVar>, name: Seq<char>)
    requires
        first_default(declarations, name) is Some,
    ensures
        declares(declarations, name),
    decreases declarations.len(),
{
    let shorter = declarations.drop_last();
    if first_default(shorter, name) is Some {
        lemma_first_default_declared(shorter, name);
        let i = choose|i: int| 0 <= i < shorter.len() && (#[trigger] shorter[i]).name@ == name;
        assert(declarations[i].name@ == name);
    } else {
        assert(declarations[declarations.len() - 1].name@ == name);
    }
}

/// What expanding `value` gives, with `home` as the home directory and `vars` as the
/// variables: the expanded text, or the message of the failed lookup. The value is that of
/// the platform the library is built for: on Windows a leading `~\` is expanded as `~/` is.
pub uninterp spec fn expansion(
    value: Seq<char>,
    home: Option<Seq<char>>,
    vars: Map<Seq<char>, Seq<char>>,
) -> Result<Seq<char>, Seq<char>>;

/// The text of either side of a result.
pub open spec fn result_text(result: Result<String, String>) -> Result<Seq<char>, Seq<char>> {
    match result {
        Ok(text) => Ok(text@),
        Err(text) => Err(text@),
    }
}

/// Expands `value` with `shellexpand::full_with_context`: `home` answers for the home
/// directory and [`Environment::lookup`] for the variables, so that a variable which is
/// not set fails the expansion. An error comes back as the message that `LookupError`
/// displays. The contract is not proved. It claims that text or message depend on the
/// value, the home directory and the variables alone, and calls them `expansion`.
#[verifier::external_body]
fn expand(value: &str, home: Option<&str>, env: &Environment) -> (expanded: Result<String, String>)
    ensures
        result_text(expanded) == expansion(value@, text_of(home), env@),
{
    shellexpand::full_with_context(value, || home, |name| env.lookup(name))
        .map(|text| text.into_owned())
        .map_err(|error| error.to_string())
}

/// Takes over what an expansion gave for the variable `name`: sets the variable to the
/// expanded text and hands the text back, or turns the message into an error and leaves
/// the environment as it is.
pub fn settle(expanded: Result<String, String>, name: &str, env: &mut Environment) -> (settled:
    Result<String, EnvInventoryError>)
    ensures
        match expanded {
            Ok(text) => final(env)@ == old(env)@.insert(name@, text@) && settled == Ok::<
                String,
                EnvInventoryError,
            >(text),
            Err(message) => final(env)@ == old(env)@ && (settled matches Err(error) && error@
                == ErrorView::MissingEnvVar(message@)),
        },
{
    match expanded {
        Ok(text) => {
            env.set_var(name, text.as_str());
            Ok(text)
        },
        Err(message) => Err(EnvInventoryError::MissingEnvVar(message)),
    }
}

/// An environment, with the values recorded so far or the message that ended the pass.
pub struct Pass {
    pub env: Map<Seq<char>, Seq<char>>,
    pub values: Result<Map<Seq<char>, Seq<char>>, Seq<char>>,
}

/// The first pass over the declarations, in the order of registration. A name that has a
/// value recorded is passed over. Else the value of the declaration, if it has one, is
/// expanded in the environment as it then stands, set there, and recorded. The first
/// expansion that fails ends the pass.
pub open spec fn first_pass(
    declarations: Seq<RequiredVar>,
    home: Option<Seq<char>>,
    env: Map<Seq<char>, Seq<char>>,
) -> Pass
    decreases declarations.len(),
{
    if declarations.len() == 0 {
        Pass { env, values: Ok(Map::empty()) }
    } else {
        let earlier = first_pass(declarations.drop_last(), home, env);
        let name = declarations.last().name@;
        match earlier.values {
            Err(_) => earlier,
            Ok(values) => if values.contains_key(name) {
                earlier
            } else {
                match declarations.last().value_in(earlier.env) {
                    None => earlier,
                    Some(value) => match expansion(value, home, earlier.env) {
                        Err(message) => Pass { env: earlier.env, values: Err(message) },
                        Ok(text) => Pass {
                            env: earlier.env.insert(name, text),
                            values: Ok(values.insert(name, text)),
                        },
                    },
                }
            },
        }
    }
}

/// The second pass, over the names that have a value recorded, in the order of their first
/// declaration. The recorded value is expanded once more, in the environment as it then
/// stands, and set there; what is recorded stays. The first expansion that fails ends the
/// pass.
pub open spec fn second_pass(
    declarations: Seq<RequiredVar>,
    home: Option<Seq<char>>,
    env: Map<Seq<char>, Seq<char>>,
    values: Map<Seq<char>, Seq<char>>,
) -> Pass
    decreases declarations.len(),
{
    if declarations.len() == 0 {
        Pass { env, values: Ok(values) }
    } else {
        let earlier = second_pass(declarations.drop_last(), home, env, values);
        let name = declarations.last().name@;
        if earlier.values is Err || !values.contains_key(name) || declares(
            declarations.drop_last(),
            name,
        ) {
            earlier
        } else {
            match expansion(values[name], home, earlier.env) {
                Err(message) => Pass { env: earlier.env, values: Err(message) },
                Ok(text) => Pass { env: earlier.env.insert(name, text), values: Ok(values) },
            }
        }
    }
}

/// Both passes, one after the other; the second only where the first went through.
pub open spec fn expanded(
    declarations: Seq<RequiredVar>,
    home: Option<Seq<char>>,
    env: Map<Seq<char>, Seq<char>>,
) -> Pass {
    let first = first_pass(declarations, home, env);
    match first.values {
        Err(_) => first,
        Ok(values) => second_pass(declarations, home, first.env, values),
    }
}

/// Expands the value of every declared variable that has one, sets the variable to the
/// expanded value, and returns the values as the first pass recorded them.
pub fn expanded_map(registry: &Registry, env: &mut Environment, home: Option<&str>) -> (result:
    Result<Settings, EnvInventoryError>)
    ensures
        final(env)@ == expanded(registry@, text_of(home), old(env)@).env,
        match expanded(registry@, text_of(home), old(env)@).values {
            Ok(values) => result matches Ok(settings) && settings@ == values,
            Err(message) => result matches Err(error) && error@ == ErrorView::MissingEnvVar(
                message,
            ),
        },
{
    let declarations = registry.declarations();
    let ghost start = env@;
    let ghost home_text = text_of(home);
    let mut values = Settings::new();
    let mut i: usize = 0;
    while i < declarations.len()
        invariant
            i <= declarations@.len(),
            declarations@ == registry@,
            home_text == text_of(home),
            start == old(env)@,
            first_pass(declarations@.take(i as int), home_text, start) == (Pass {
                env: env@,
                values: Ok(values@),
            }),
        decreases declarations@.len() - i,
    {
        let declaration = &declarations[i];
        proof {
            assert(declarations@.take(i + 1).drop_last() == declarations@.take(i as int));
            assert(declarations@.take(i + 1).last() == declarations@[i as int]);
        }
        if !values.contains_key(declaration.name) {
            match declaration.get(env) {
                Some(value) => {
                    let text = settle(expand(value.as_str(), home, env), declaration.name, env);
                    match text {
                        Ok(text) => {
                            values.insert(declaration.name.to_owned(), text);
                        },
                        Err(error) => {
                            proof {
                                let ended = first_pass(
                                    declarations@.take(i + 1),
                                    home_text,
                                    start,
                                );
                                assert(ended.env == env@);
                                assert(ended.values is Err);
                                assert(error@ == ErrorView::MissingEnvVar(ended.values->Err_0));
                                lemma_failure_is_final(
                                    declarations@,
                                    home_text,
                                    start,
                                    i + 1,
                                );
                                assert(expanded(registry@, home_text, start) == ended);
                            }
                            return Err(error);
                        },
                    }
                },
                None => {},
            }
        }
        i += 1;
    }
    proof {
        assert(declarations@.take(i as int) == declarations@);
    }
    let ghost between = env@;
    let mut i: usize = 0;
    while i < declarations.len()
        invariant
            i <= declarations@.len(),
            declarations@ == registry@,
            home_text == text_of(home),
            start == old(env)@,
            first_pass(declarations@, home_text, start) == (Pass {
                env: between,
                values: Ok(values@),
            }),
            second_pass(declarations@.take(i as int), home_text, between, values@) == (Pass {
                env: env@,
                values: Ok(values@),
            }),
        decreases declarations@.len() - i,
    {
        let name = declarations[i].name;
        proof {
            assert(declarations@.take(i + 1).drop_last() == declarations@.take(i as int));
            assert(declarations@.take(i + 1).last() == declarations@[i as int]);
        }
        if !registry.declares_before(name, i) {
            match values.get(name) {
                Some(value) => {
                    match settle(expand(value.as_str(), home, env), name, env) {
                        Ok(_) => {},
                        Err(error) => {
                            proof {
                                let ended = second_pass(
                                    declarations@.take(i + 1),
                                    home_text,
                                    between,
                                    values@,
                                );
                                assert(ended.env == env@);
                                assert(ended.values is Err);
                                assert(error@ == ErrorView::MissingEnvVar(ended.values->Err_0));
                                lemma_second_failure_is_final(
                                    declarations@,
                                    home_text,
                                    between,
                                    values@,
                                    i + 1,
                                );
                                assert(expanded(registry@, home_text, start) == ended);
                            }
                            return Err(error);
                        },
                    }
                },
                None => {},
            }
        }
        i += 1;
    }
    proof {
        assert(declarations@.take(i as int) == declarations@);
    }
    Ok(values)
}

/// Once the first pass has failed, further declarations change nothing.
proof fn lemma_failure_is_final(
    declarations: Seq<RequiredVar>,
    home: Option<Seq<char>>,
    env: Map<Seq<char>, Seq<char>>,
    count: int,
)
    requires
        0 <= count <= declarations.len(),
        first_pass(declarations.take(count), home, env).values is Err,
    ensures
        first_pass(declarations, home, env) == first_pass(declarations.take(count), home, env),
    decreases declarations.len() - count,
{
    if count < declarations.len() {
        assert(declarations.take(count + 1).drop_last() == declarations.take(count));
        lemma_failure_is_final(declarations, home, env, count + 1);
    } else {
        assert(declarations.take(count) == declarations);
    }
}

/// Once the second pass has failed, further declarations change nothing.
proof fn lemma_second_failure_is_final(
    declarations: Seq<RequiredVar>,
    home: Option<Seq<char>>,
    env: Map<Seq<char>, Seq<char>>,
    values: Map<Seq<char>, Seq<char>>,
    count: int,
)
    requires
        0 <= count <= declarations.len(),
        second_pass(declarations.take(count), home, env, values).values is Err,
    ensures
        second_pass(declarations, home, env, values) == second_pass(
            declarations.take(count),
            home,
            env,
            values,
        ),
    decreases declarations.len() - count,
{
    if count < declarations.len() {
        assert(declarations.take(count + 1).drop_last() == declarations.take(count));
        lemma_second_failure_is_final(declarations, home, env, values, count + 1);
    } else {
        assert(declarations.take(count) == declarations);
    }
}

} // verus!
