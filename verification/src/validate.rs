//! Validation: which declared variables have no value, and the sorted list of all names.

use crate::declaration::RequiredVar;
use crate::error::{report_of, EnvInventoryError, ErrorView, MissingVar};
use crate::registry::{declares, has_default, last_hint, Registry};
use crate::settings::Environment;
use crate::text::{
    compare, lemma_text_less_asymmetric, lemma_text_less_transitive, lemma_text_order_total,
    text_at_most, text_less, Position,
};
use vstd::prelude::*;
use crate::text::same_text;
use vstd::seq_lib::{to_multiset_build, to_multiset_contains, to_multiset_insert};

verus! {

/// The names of the declarations, in the order of registration.
pub open spec fn names_of(declarations: Seq<RequiredVar>) -> Seq<Seq<char>> {
    Seq::new(declarations.len(), |i: int| declarations[i].name@)
}

/// The texts of a list of strings.
pub open spec fn texts_of(names: Seq<String>) -> Seq<Seq<char>> {
    Seq::new(names.len(), |i: int| names[i]@)
}

/// No name stands after one that it comes before.
pub open spec fn sorted(names: Seq<Seq<char>>) -> bool {
    forall|i: int, j: int| 0 <= i < j < names.len() ==> text_at_most(names[i], names[j])
}

/// Each name comes before all that stand after it: the names are sorted, and none occurs
/// twice.
pub open spec fn strictly_sorted(names: Seq<Seq<char>>) -> bool {
    forall|i: int, j: int| 0 <= i < j < names.len() ==> text_less(names[i], names[j])
}

/// The names of a report.
pub open spec fn reported(report: Seq<(Seq<char>, Seq<char>)>) -> Seq<Seq<char>> {
    Seq::new(report.len(), |i: int| report[i].0)
}

/// `name` is declared and has no value: the environment does not set it, and no
/// declaration of it has a default.
pub open spec fn is_missing(
    declarations: Seq<RequiredVar>,
    env: Map<Seq<char>, Seq<char>>,
    name: Seq<char>,
) -> bool {
    &&& declares(declarations, name)
    &&& !env.contains_key(name)
    &&& !has_default(declarations, name)
}

/// The hint to show for `name`: that of the declaration registered last among those of
/// `name` that give one, else `(missing)`.
pub open spec fn hint_for(declarations: Seq<RequiredVar>, name: Seq<char>) -> Seq<char> {
    match last_hint(declarations, name) {
        Some(hint) => hint,
        None => "(missing)"@,
    }
}

/// `report` is the report on `declarations` in `env`: the missing names, all of them, each
/// once, sorted, each with its hint.
pub open spec fn is_report(
    declarations: Seq<RequiredVar>,
    env: Map<Seq<char>, Seq<char>>,
    report: Seq<(Seq<char>, Seq<char>)>,
) -> bool {
    &&& strictly_sorted(reported(report))
    &&& forall|name: Seq<char>|
        is_missing(declarations, env, name) <==> #[trigger] reported(report).contains(name)
    &&& forall|i: int|
        0 <= i < report.len() ==> (#[trigger] report[i]).1 == hint_for(declarations, report[i].0)
}

/// The error that a result holds, over plain text; `None` for success.
pub open spec fn failure_of(result: Result<(), EnvInventoryError>) -> Option<ErrorView> {
    match result {
        Ok(_) => None,
        Err(error) => Some(error@),
    }
}

/// `failure` is how validating `declarations` in `env` ends: with success where no name is
/// missing, else with the report of the missing names.
pub open spec fn validates(
    declarations: Seq<RequiredVar>,
    env: Map<Seq<char>, Seq<char>>,
    failure: Option<ErrorView>,
) -> bool {
    match failure {
        None => forall|name: Seq<char>| !is_missing(declarations, env, name),
        Some(ErrorView::MissingEnvVars(report)) => report.len() > 0 && is_report(
            declarations,
            env,
            report,
        ),
        Some(_) => false,
    }
}

/// Two lists of names that are both sorted without repetition and hold the same names are
/// the same list.
pub proof fn lemma_sorted_names_unique(a: Seq<Seq<char>>, b: Seq<Seq<char>>)
    requires
        strictly_sorted(a),
        strictly_sorted(b),
        forall|name: Seq<char>| a.contains(name) <==> b.contains(name),
    ensures
        a == b,
    decreases a.len(),
{
    if a.len() == 0 {
        if b.len() > 0 {
            assert(b.contains(b[0]));
        }
        assert(a =~= b);
    } else {
        assert(a.contains(a.last()));
        assert(b.contains(a.last()));
        let k = choose|k: int| 0 <= k < b.len() && b[k] == a.last();
        assert(b.contains(b.last()));
        assert(a.contains(b.last()));
        let m = choose|m: int| 0 <= m < a.len() && a[m] == b.last();
        if k < b.len() - 1 {
            assert(text_less(b[k], b.last()));
            if m < a.len() - 1 {
                assert(text_less(a[m], a.last()));
            }
            lemma_text_less_asymmetric(a.last(), b.last());
        }
        let a0 = a.drop_last();
        let b0 = b.drop_last();
        assert forall|name: Seq<char>| a0.contains(name) <==> b0.contains(name) by {
            if a0.contains(name) {
                let i = choose|i: int| 0 <= i < a0.len() && a0[i] == name;
                assert(text_less(a[i], a.last()));
                lemma_text_less_asymmetric(name, a.last());
                assert(a.contains(name));
                let j = choose|j: int| 0 <= j < b.len() && b[j] == name;
                assert(b0[j] == name);
            }
            if b0.contains(name) {
                let i = choose|i: int| 0 <= i < b0.len() && b0[i] == name;
                assert(text_less(b[i], b.last()));
                lemma_text_less_asymmetric(name, b.last());
                assert(b.contains(name));
                let j = choose|j: int| 0 <= j < a.len() && a[j] == name;
                assert(a0[j] == name);
            }
        }
        lemma_sorted_names_unique(a0, b0);
        assert(a =~= a0.push(a.last()));
        assert(b =~= b0.push(b.last()));
    }
}

/// Validation is repeatable: as long as neither the declarations nor the environment
/// change, every validation ends in the same way.
pub proof fn validation_is_repeatable(
    declarations: Seq<RequiredVar>,
    env: Map<Seq<char>, Seq<char>>,
    first: Option<ErrorView>,
    second: Option<ErrorView>,
)
    requires
        validates(declarations, env, first),
        validates(declarations, env, second),
    ensures
        first == second,
{
    match (first, second) {
        (Some(ErrorView::MissingEnvVars(a)), Some(ErrorView::MissingEnvVars(b))) => {
            lemma_sorted_names_unique(reported(a), reported(b));
            assert(a.len() == reported(a).len());
            assert(b.len() == reported(b).len());
            assert forall|i: int| 0 <= i < a.len() implies a[i] == b[i] by {
                assert(reported(a)[i] == reported(b)[i]);
            }
            assert(a =~= b);
        },
        (Some(ErrorView::MissingEnvVars(a)), None) => {
            assert(reported(a).contains(reported(a)[0]));
        },
        (None, Some(ErrorView::MissingEnvVars(b))) => {
            assert(reported(b).contains(reported(b)[0]));
        },
        _ => {},
    }
}

/// Where `name` goes in a sorted list: the index of the first entry that does not come
/// before it, and whether that entry is `name` itself.
fn place(names: &Vec<String>, name: &str) -> (found: (usize, bool))
    requires
        sorted(texts_of(names@)),
    ensures
        found.0 <= names@.len(),
        forall|j: int| 0 <= j < found.0 ==> text_less(#[trigger] names@[j]@, name@),
        forall|j: int| found.0 <= j < names@.len() ==> !text_less(#[trigger] names@[j]@, name@),
        found.1 == (found.0 < names@.len() && names@[found.0 as int]@ == name@),
{
    let mut i: usize = 0;
    while i < names.len()
        invariant
            i <= names@.len(),
            sorted(texts_of(names@)),
            forall|j: int| 0 <= j < i ==> text_less(#[trigger] names@[j]@, name@),
        decreases names@.len() - i,
    {
        let position = compare(names[i].as_str(), name);
        if position != Position::Before {
            proof {
                let texts = texts_of(names@);
                assert forall|j: int| i <= j < names@.len() implies !text_less(
                    #[trigger] names@[j]@,
                    name@,
                ) by {
                    if text_less(names@[j]@, name@) {
                        if i < j {
                            assert(text_at_most(texts[i as int], texts[j]));
                            if texts[i as int] != texts[j] {
                                lemma_text_less_transitive(texts[i as int], texts[j], name@);
                            }
                        }
                        if position == Position::After {
                            lemma_text_less_asymmetric(name@, names@[i as int]@);
                        } else {
                            lemma_text_less_asymmetric(names@[i as int]@, name@);
                        }
                    }
                }
            }
            return (i, position == Position::Same);
        }
        i += 1;
    }
    (i, false)
}

/// The names of all declarations, sorted; a name stands once for each declaration of it.
pub fn list_all_vars(registry: &Registry) -> (names: Vec<String>)
    ensures
        sorted(texts_of(names@)),
        texts_of(names@).to_multiset() == names_of(registry@).to_multiset(),
{
    let declarations = registry.declarations();
    let mut names: Vec<String> = Vec::new();
    let mut i: usize = 0;
    proof {
        assert(texts_of(names@) =~= names_of(declarations@.take(0)));
    }
    while i < declarations.len()
        invariant
            i <= declarations@.len(),
            declarations@ == registry@,
            sorted(texts_of(names@)),
            texts_of(names@).to_multiset() == names_of(
                declarations@.take(i as int),
            ).to_multiset(),
        decreases declarations@.len() - i,
    {
        let name = declarations[i].name;
        let found = place(&names, name);
        let ghost before = texts_of(names@);
        names.insert(found.0, name.to_owned());
        proof {
            let after = texts_of(names@);
            assert(after =~= before.insert(found.0 as int, name@));
            to_multiset_insert(before, found.0 as int, name@);
            let shorter = names_of(declarations@.take(i as int));
            assert(names_of(declarations@.take(i + 1)) =~= shorter.push(name@));
            to_multiset_build(shorter, name@);
            assert forall|a: int, b: int| 0 <= a < b < after.len() implies text_at_most(
                after[a],
                after[b],
            ) by {
                if a == found.0 {
                    assert(after[b] == before[b - 1]);
                    assert(!text_less(names@[b]@, name@));
                    lemma_text_order_total(after[a], after[b]);
                } else if b == found.0 {
                    assert(after[a] == before[a]);
                } else {
                    let a0 = if a < found.0 { a } else { a - 1 };
                    let b0 = if b < found.0 { b } else { b - 1 };
                    assert(text_at_most(before[a0], before[b0]));
                }
            }
        }
        i += 1;
    }
    proof {
        assert(declarations@.take(i as int) == declarations@);
    }
    names
}

/// A name stands in the sorted list of all names exactly where it is declared.
proof fn lemma_listed_names(declarations: Seq<RequiredVar>, texts: Seq<Seq<char>>, name: Seq<char>)
    requires
        texts.to_multiset() == names_of(declarations).to_multiset(),
    ensures
        texts.contains(name) <==> declares(declarations, name),
{
    let declared = names_of(declarations);
    to_multiset_contains(texts, name);
    to_multiset_contains(declared, name);
    if declared.contains(name) {
        let i = choose|i: int| 0 <= i < declared.len() && declared[i] == name;
        assert(declarations[i].name@ == name);
    }
    if declares(declarations, name) {
        let i = choose|i: int|
            0 <= i < declarations.len() && (#[trigger] declarations[i]).name@ == name;
        assert(declared[i] == name);
    }
}

/// In a sorted list, an entry that differs from the one before it comes after every
/// earlier entry.
proof fn lemma_new_name_is_later(texts: Seq<Seq<char>>, k: int, m: int)
    requires
        sorted(texts),
        0 <= m < k < texts.len(),
        texts[k - 1] != texts[k],
    ensures
        text_less(texts[m], texts[k]),
{
    assert(text_at_most(texts[m], texts[k]));
    assert(text_at_most(texts[k - 1], texts[k]));
    if m < k - 1 {
        assert(text_at_most(texts[m], texts[k - 1]));
        if texts[m] == texts[k] {
            lemma_text_less_asymmetric(texts[k - 1], texts[k]);
        }
    }
}

/// Checks that every declared variable has a value: one set in `env`, or a default from
/// any of its declarations.
pub fn validate_env_vars(registry: &Registry, env: &Environment) -> (result: Result<
    (),
    EnvInventoryError,
>)
    ensures
        validates(registry@, env@, failure_of(result)),
{
    let names = list_all_vars(registry);
    let ghost texts = texts_of(names@);
    let mut missing: Vec<MissingVar> = Vec::new();
    let mut k: usize = 0;
    proof {
        assert(reported(report_of(missing@)) =~= Seq::<Seq<char>>::empty());
    }
    while k < names.len()
        invariant
            k <= names@.len(),
            texts == texts_of(names@),
            sorted(texts),
            texts.to_multiset() == names_of(registry@).to_multiset(),
            strictly_sorted(reported(report_of(missing@))),
            forall|name: Seq<char>| #[trigger]
                reported(report_of(missing@)).contains(name) <==> is_missing(
                    registry@,
                    env@,
                    name,
                ) && texts.take(k as int).contains(name),
            forall|j: int|
                0 <= j < missing@.len() ==> (#[trigger] missing@[j]).hint@ == hint_for(
                    registry@,
                    missing@[j].name@,
                ),
        decreases names@.len() - k,
    {
        let name = names[k].as_str();
        let repeated = k > 0 && same_text(names[k - 1].as_str(), name);
        let ghost before = reported(report_of(missing@));
        proof {
            assert(texts[k as int] == name@);
            assert(texts.take(k + 1) =~= texts.take(k as int).push(name@));
            assert forall|other: Seq<char>|
                texts.take(k + 1).contains(other) <==> texts.take(k as int).contains(other)
                    || other == name@ by {
                if texts.take(k as int).contains(other) {
                    let m = choose|m: int| 0 <= m < k && texts.take(k as int)[m] == other;
                    assert(texts.take(k + 1)[m] == other);
                }
                if other == name@ {
                    assert(texts.take(k + 1)[k as int] == other);
                }
            }
            if repeated {
                assert(texts.take(k as int)[k - 1] == name@);
            }
            lemma_listed_names(registry@, texts, name@);
            assert(texts.contains(name@));
        }
        if !repeated && !env.is_set(name) && !registry.has_default(name) {
            let hint = match registry.hint_of(name) {
                Some(text) => text.to_owned(),
                None => "(missing)".to_owned(),
            };
            missing.push(MissingVar { name: name.to_owned(), hint });
            proof {
                let after = reported(report_of(missing@));
                assert(after =~= before.push(name@));
                assert forall|i: int, j: int| 0 <= i < j < after.len() implies text_less(
                    after[i],
                    after[j],
                ) by {
                    if j == before.len() {
                        assert(before.contains(before[i]));
                        let m = choose|m: int| 0 <= m < k && texts.take(k as int)[m] == before[i];
                        lemma_new_name_is_later(texts, k as int, m);
                    } else {
                        assert(text_less(before[i], before[j]));
                    }
                }
                assert forall|other: Seq<char>|
                    after.contains(other) <==> before.contains(other) || other == name@ by {
                    if before.contains(other) {
                        let i = choose|i: int| 0 <= i < before.len() && before[i] == other;
                        assert(after[i] == other);
                    }
                    if other == name@ {
                        assert(after[before.len() as int] == other);
                    }
                }
            }
        }
        proof {
            assert forall|other: Seq<char>| #[trigger]
                reported(report_of(missing@)).contains(other) <==> is_missing(
                    registry@,
                    env@,
                    other,
                ) && texts.take(k + 1).contains(other) by {
                assert(before.contains(other) <==> is_missing(registry@, env@, other)
                    && texts.take(k as int).contains(other));
            }
        }
        k += 1;
    }
    proof {
        assert(texts.take(k as int) == texts);
        assert forall|name: Seq<char>|
            is_missing(registry@, env@, name) <==> #[trigger] reported(
                report_of(missing@),
            ).contains(name) by {
            lemma_listed_names(registry@, texts, name);
        }
        let report = report_of(missing@);
        assert(report.len() == missing@.len());
        assert forall|i: int| 0 <= i < report.len() implies (#[trigger] report[i]).1 == hint_for(
            registry@,
            report[i].0,
        ) by {
            assert(missing@[i].hint@ == hint_for(registry@, missing@[i].name@));
        }
        if missing@.len() == 0 {
            assert forall|name: Seq<char>| !is_missing(registry@, env@, name) by {
                assert(!reported(report).contains(name));
            }
        }
    }
    if missing.len() == 0 {
        Ok(())
    } else {
        Err(EnvInventoryError::MissingEnvVars(missing))
    }
}

} // verus!
