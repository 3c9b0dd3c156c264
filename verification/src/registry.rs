//! The registry: every declaration made, in the order of registration.

use crate::declaration::{text_of, Priority, RequiredVar};
use crate::text::same_text;
use vstd::prelude::*;

verus! {

/// Some declaration is of the variable `name`.
pub open spec fn declares(declarations: Seq<RequiredVar>, name: Seq<char>) -> bool {
    exists|i: int| 0 <= i < declarations.len() && (#[trigger] declarations[i]).name@ == name
}

/// Some declaration of `name` has a default, at whatever rank.
pub open spec fn has_default(declarations: Seq<RequiredVar>, name: Seq<char>) -> bool {
    exists|i: int|
        0 <= i < declarations.len() && (#[trigger] declarations[i]).name@ == name
            && declarations[i].default is Some
}

/// The declaration is of `name`, at the rank `priority`, and has a default.
pub open spec fn gives_default(declaration: RequiredVar, name: Seq<char>, priority: Priority) -> bool {
    &&& declaration.name@ == name
    &&& declaration.priority == priority
    &&& declaration.default is Some
}

/// The default for `name` at the rank `priority`: that of the declaration registered last
/// among those that give one.
pub open spec fn last_default(
    declarations: Seq<RequiredVar>,
    name: Seq<char>,
    priority: Priority,
) -> Option<Seq<char>>
    decreases declarations.len(),
{
    if declarations.len() == 0 {
        None
    } else if gives_default(declarations.last(), name, priority) {
        text_of(declarations.last().default)
    } else {
        last_default(declarations.drop_last(), name, priority)
    }
}

/// The hint for `name`: that of the declaration registered last among those of `name` that
/// give one.
pub open spec fn last_hint(declarations: Seq<RequiredVar>, name: Seq<char>) -> Option<Seq<char>>
    decreases declarations.len(),
{
    if declarations.len() == 0 {
        None
    } else if declarations.last().name@ == name && declarations.last().error is Some {
        text_of(declarations.last().error)
    } else {
        last_hint(declarations.drop_last(), name)
    }
}

/// Where the declaration at `at` gives a default for `name` at the rank `priority` and no
/// later one does, its default is the one that counts.
pub proof fn lemma_last_default_at(
    declarations: Seq<RequiredVar>,
    name: Seq<char>,
    priority: Priority,
    at: int,
)
    requires
        0 <= at < declarations.len(),
        gives_default(declarations[at], name, priority),
        forall|j: int|
            at < j < declarations.len() ==> !gives_default(
                #[trigger] declarations[j],
                name,
                priority,
            ),
    ensures
        last_default(declarations, name, priority) == text_of(declarations[at].default),
    decreases declarations.len(),
{
    if at + 1 < declarations.len() {
        let shorter = declarations.drop_last();
        assert forall|j: int| at < j < shorter.len() implies !gives_default(
            #[trigger] shorter[j],
            name,
            priority,
        ) by {
            assert(shorter[j] == declarations[j]);
        }
        lemma_last_default_at(shorter, name, priority, at);
    }
}

/// There is a default for `name` at the rank `priority` exactly where some declaration
/// gives one.
pub proof fn lemma_last_default_some(
    declarations: Seq<RequiredVar>,
    name: Seq<char>,
    priority: Priority,
)
    ensures
        last_default(declarations, name, priority) is Some <==> exists|i: int|
            0 <= i < declarations.len() && gives_default(
                #[trigger] declarations[i],
                name,
                priority,
            ),
    decreases declarations.len(),
{
    if declarations.len() > 0 {
        let shorter = declarations.drop_last();
        lemma_last_default_some(shorter, name, priority);
        if gives_default(declarations.last(), name, priority) {
            assert(gives_default(declarations[declarations.len() - 1], name, priority));
        } else if last_default(shorter, name, priority) is Some {
            let i = choose|i: int|
                0 <= i < shorter.len() && gives_default(#[trigger] shorter[i], name, priority);
            assert(gives_default(declarations[i], name, priority));
        } else {
            assert forall|i: int| 0 <= i < declarations.len() implies !gives_default(
                #[trigger] declarations[i],
                name,
                priority,
            ) by {
                if i < shorter.len() {
                    assert(shorter[i] == declarations[i]);
                }
            }
        }
    }
}

/// One more declaration declares its own name besides those declared before.
pub proof fn lemma_declares_one_more(declarations: Seq<RequiredVar>, count: int, name: Seq<char>)
    requires
        0 <= count < declarations.len(),
    ensures
        declares(declarations.take(count + 1), name) <==> declares(
            declarations.take(count),
            name,
        ) || declarations[count].name@ == name,
{
    let shorter = declarations.take(count);
    let longer = declarations.take(count + 1);
    assert(longer[count] == declarations[count]);
    if declares(shorter, name) {
        let j = choose|j: int| 0 <= j < shorter.len() && (#[trigger] shorter[j]).name@ == name;
        assert(longer[j].name@ == name);
    }
    if declares(longer, name) && declarations[count].name@ != name {
        let j = choose|j: int| 0 <= j < longer.len() && (#[trigger] longer[j]).name@ == name;
        assert(shorter[j].name@ == name);
    }
}

/// The declarations of a program. It only grows: a declaration, once registered, is neither
/// changed nor removed, and a second one of the same name stands beside the first.
pub struct Registry {
    vars: Vec<RequiredVar>,
}

impl View for Registry {
    type V = Seq<RequiredVar>;

    closed spec fn view(&self) -> Seq<RequiredVar> {
        self.vars@
    }
}

impl Registry {
    /// A registry without declarations.
    pub fn new() -> (registry: Self)
        ensures
            registry@ == Seq::<RequiredVar>::empty(),
    {
        Registry { vars: Vec::new() }
    }

    /// Adds `declaration` after those registered so far.
    pub fn register(&mut self, declaration: RequiredVar)
        ensures
            final(self)@ == old(self)@.push(declaration),
    {
        self.vars.push(declaration);
    }

    /// All declarations, in the order of registration.
    pub fn declarations(&self) -> (declarations: &Vec<RequiredVar>)
        ensures
            declarations@ == self@,
    {
        &self.vars
    }

    /// Whether one of the first `count` declarations is of `name`.
    pub fn declares_before(&self, name: &str, count: usize) -> (found: bool)
        requires
            count <= self@.len(),
        ensures
            found == declares(self@.take(count as int), name@),
    {
        let ghost earlier = self.vars@.take(count as int);
        let mut i: usize = 0;
        while i < count
            invariant
                i <= count <= self.vars@.len(),
                self@ == self.vars@,
                earlier == self.vars@.take(count as int),
                forall|j: int| 0 <= j < i ==> (#[trigger] earlier[j]).name@ != name@,
            decreases count - i,
        {
            if same_text(self.vars[i].name, name) {
                assert(earlier[i as int].name@ == name@);
                return true;
            }
            i += 1;
        }
        false
    }

    /// Whether some declaration of `name` has a default.
    pub fn has_default(&self, name: &str) -> (found: bool)
        ensures
            found == has_default(self@, name@),
    {
        let mut i: usize = 0;
        while i < self.vars.len()
            invariant
                i <= self.vars@.len(),
                self@ == self.vars@,
                forall|j: int|
                    0 <= j < i ==> !((#[trigger] self.vars@[j]).name@ == name@
                        && self.vars@[j].default is Some),
            decreases self.vars@.len() - i,
        {
            if same_text(self.vars[i].name, name) && self.vars[i].default.is_some() {
                return true;
            }
            i += 1;
        }
        false
    }

    /// The default for `name` at the rank `priority`.
    pub fn default_of(&self, name: &str, priority: Priority) -> (default: Option<&'static str>)
        ensures
            text_of(default) == last_default(self@, name@, priority),
    {
        let mut default: Option<&'static str> = None;
        let mut i: usize = 0;
        while i < self.vars.len()
            invariant
                i <= self.vars@.len(),
                self@ == self.vars@,
                text_of(default) == last_default(self.vars@.take(i as int), name@, priority),
            decreases self.vars@.len() - i,
        {
            let declaration = &self.vars[i];
            proof {
                assert(self.vars@.take(i + 1).drop_last() == self.vars@.take(i as int));
            }
            if same_text(declaration.name, name) && declaration.priority == priority
                && declaration.default.is_some() {
                default = declaration.default;
            }
            i += 1;
        }
        proof {
            assert(self.vars@.take(i as int) == self.vars@);
        }
        default
    }

    /// The hint for `name`.
    pub fn hint_of(&self, name: &str) -> (hint: Option<&'static str>)
        ensures
            text_of(hint) == last_hint(self@, name@),
    {
        let mut hint: Option<&'static str> = None;
        let mut i: usize = 0;
        while i < self.vars.len()
            invariant
                i <= self.vars@.len(),
                self@ == self.vars@,
                text_of(hint) == last_hint(self.vars@.take(i as int), name@),
            decreases self.vars@.len() - i,
        {
            let declaration = &self.vars[i];
            proof {
                assert(self.vars@.take(i + 1).drop_last() == self.vars@.take(i as int));
            }
            if same_text(declaration.name, name) && declaration.error.is_some() {
                hint = declaration.error;
            }
            i += 1;
        }
        proof {
            assert(self.vars@.take(i as int) == self.vars@);
        }
        hint
    }
}

} // verus!
