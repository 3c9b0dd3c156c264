//! Declarations: one part of a program saying that it depends on a variable.

use crate::settings::Environment;
use vstd::prelude::*;

verus! {

/// The rank of a compiled-in default.
#[derive(Debug, Clone, Copy, PartialEq, Eq, Hash, PartialOrd, Ord, Structural)]
pub enum Priority {
    /// The fallback of a library.
    Library,
    /// The override of the program that assembles the libraries. It is preferred to every
    /// `Library` default for the same name.
    Binary,
}

/// The declaration of one variable by one part of the program.
#[derive(Debug, Clone, PartialEq, Eq, Hash, PartialOrd, Ord)]
pub struct RequiredVar {
    /// The name of the variable.
    pub name: &'static str,
    /// The compiled-in value to fall back on.
    pub default: Option<&'static str>,
    /// What to tell the user when the variable is missing.
    pub error: Option<&'static str>,
    /// Where the declaration was made; for diagnostics only.
    pub source: &'static str,
    /// The rank of `default`.
    pub priority: Priority,
}

/// The text of an optional string.
pub open spec fn text_of(value: Option<&str>) -> Option<Seq<char>> {
    match value {
        Some(text) => Some(text@),
        None => None,
    }
}

/// The text of an optional owned string.
pub open spec fn owned_text_of(value: Option<String>) -> Option<Seq<char>> {
    match value {
        Some(text) => Some(text@),
        None => None,
    }
}

impl RequiredVar {
    /// The value that this declaration alone gives its variable in the environment `env`:
    /// the one set there, else the default.
    pub open spec fn value_in(&self, env: Map<Seq<char>, Seq<char>>) -> Option<Seq<char>> {
        if env.contains_key(self.name@) {
            Some(env[self.name@])
        } else {
            text_of(self.default)
        }
    }

    /// Declares `name`, with no default and no hint, at the rank of a library.
    pub fn new(name: &'static str) -> (declaration: Self)
        ensures
            declaration.name == name,
            declaration.default is None,
            declaration.error is None,
            declaration.source@ == "<none>"@,
            declaration.priority == Priority::Library,
    {
        Self { name, default: None, error: None, source: "<none>", priority: Priority::Library }
    }

    /// Whether the variable is set in `env` or has a default here.
    pub fn is_set(&self, env: &Environment) -> (set: bool)
        ensures
            set == (env@.contains_key(self.name@) || self.default is Some),
    {
        env.is_set(self.name) || self.default.is_some()
    }

    /// The value of the variable in `env`, else the default given here.
    pub fn get(&self, env: &Environment) -> (value: Option<String>)
        ensures
            owned_text_of(value) == self.value_in(env@),
    {
        match env.var(self.name) {
            Some(value) => Some(value.clone()),
            None => match self.default {
                Some(value) => Some(value.to_owned()),
                None => None,
            },
        }
    }
}

} // verus!
