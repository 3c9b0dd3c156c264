//! Flat key-to-text mappings: the settings read from documents, and the environment.

use crate::text::same_text;
use vstd::prelude::*;

verus! {

/// `key` is the key of one of `entries`.
pub open spec fn has_key(entries: Seq<(String, String)>, key: Seq<char>) -> bool {
    exists|i: int| 0 <= i < entries.len() && (#[trigger] entries[i]).0@ == key
}

/// No key occurs twice among `entries`.
pub open spec fn distinct_keys(entries: Seq<(String, String)>) -> bool {
    forall|i: int, j: int|
        0 <= i < j < entries.len() ==> (#[trigger] entries[i]).0@ != (#[trigger] entries[j]).0@
}

/// `entries` lists `map`: every entry is a pair of `map`, every key of `map` is the key of
/// an entry, and no key occurs twice.
pub open spec fn lists(entries: Seq<(String, String)>, map: Map<Seq<char>, Seq<char>>) -> bool {
    &&& distinct_keys(entries)
    &&& forall|i: int|
        0 <= i < entries.len() ==> map.contains_key((#[trigger] entries[i]).0@) && map[entries[i].0@]
            == entries[i].1@
    &&& forall|key: Seq<char>| #[trigger] map.contains_key(key) ==> has_key(entries, key)
}

/// The mapping that a list of entries with distinct keys stands for.
spec fn mapping_of(entries: Seq<(String, String)>) -> Map<Seq<char>, Seq<char>> {
    Map::new(
        |key: Seq<char>| has_key(entries, key),
        |key: Seq<char>|
            entries[choose|i: int| 0 <= i < entries.len() && (#[trigger] entries[i]).0@ == key].1@,
    )
}

/// A list of entries with distinct keys lists the mapping it stands for.
proof fn lemma_lists_mapping(entries: Seq<(String, String)>)
    requires
        distinct_keys(entries),
    ensures
        lists(entries, mapping_of(entries)),
{
    let map = mapping_of(entries);
    assert forall|i: int| 0 <= i < entries.len() implies map.contains_key(
        (#[trigger] entries[i]).0@,
    ) && map[entries[i].0@] == entries[i].1@ by {
        let key = entries[i].0@;
        let j = choose|j: int| 0 <= j < entries.len() && (#[trigger] entries[j]).0@ == key;
        assert(i == j);
    }
}

/// The index of the entry of `key`, if there is one.
fn position(entries: &Vec<(String, String)>, key: &str) -> (found: Option<usize>)
    ensures
        match found {
            Some(i) => i < entries@.len() && entries@[i as int].0@ == key@,
            None => !has_key(entries@, key@),
        },
{
    let mut i: usize = 0;
    while i < entries.len()
        invariant
            i <= entries@.len(),
            forall|j: int| 0 <= j < i ==> (#[trigger] entries@[j]).0@ != key@,
        decreases entries@.len() - i,
    {
        if same_text(entries[i].0.as_str(), key) {
            return Some(i);
        }
        i += 1;
    }
    None
}

/// A mapping from keys to text, held as a list in which no key occurs twice.
pub struct Settings {
    entries: Vec<(String, String)>,
}

impl View for Settings {
    type V = Map<Seq<char>, Seq<char>>;

    closed spec fn view(&self) -> Map<Seq<char>, Seq<char>> {
        mapping_of(self.entries@)
    }
}

impl Settings {
    #[verifier::type_invariant]
    spec fn well_formed(&self) -> bool {
        distinct_keys(self.entries@)
    }

    /// The empty mapping.
    pub fn new() -> (settings: Self)
        ensures
            settings@ == Map::<Seq<char>, Seq<char>>::empty(),
    {
        let settings = Settings { entries: Vec::new() };
        assert(settings@ =~= Map::<Seq<char>, Seq<char>>::empty());
        settings
    }

    /// Whether `key` has a value.
    pub fn contains_key(&self, key: &str) -> (present: bool)
        ensures
            present == self@.contains_key(key@),
    {
        position(&self.entries, key).is_some()
    }

    /// The value of `key`, if it has one.
    pub fn get(&self, key: &str) -> (value: Option<&String>)
        ensures
            match value {
                Some(text) => self@.contains_key(key@) && text@ == self@[key@],
                None => !self@.contains_key(key@),
            },
    {
        proof {
            use_type_invariant(self);
            lemma_lists_mapping(self.entries@);
        }
        match position(&self.entries, key) {
            Some(i) => Some(&self.entries[i].1),
            None => None,
        }
    }

    /// Gives `key` the value `value`, in place of the one it had, if any.
    pub fn insert(&mut self, key: String, value: String)
        ensures
            final(self)@ == old(self)@.insert(key@, value@),
    {
        proof {
            use_type_invariant(&*self);
            lemma_lists_mapping(self.entries@);
        }
        let mut entries: Vec<(String, String)> = Vec::new();
        std::mem::swap(&mut entries, &mut self.entries);
        let ghost before = entries@;
        let ghost at: int;
        match position(&entries, key.as_str()) {
            Some(i) => {
                entries.set(i, (key, value));
                proof {
                    at = i as int;
                    assert forall|j: int| 0 <= j < before.len() implies (#[trigger] entries@[j]).0@
                        == before[j].0@ by {}
                }
            },
            None => {
                entries.push((key, value));
                proof {
                    at = before.len() as int;
                }
            },
        }
        proof {
            assert(distinct_keys(entries@)) by {
                assert forall|i: int, j: int| 0 <= i < j < entries@.len() implies (
                #[trigger] entries@[i]).0@ != (#[trigger] entries@[j]).0@ by {
                    if j < before.len() {
                        assert(before[i].0@ != before[j].0@);
                    } else {
                        assert(before[i].0@ != key@);
                    }
                }
            }
            lemma_lists_mapping(entries@);
            let after = mapping_of(entries@);
            let wanted = mapping_of(before).insert(key@, value@);
            assert forall|k: Seq<char>| after.contains_key(k) <==> wanted.contains_key(k) by {
                if has_key(entries@, k) {
                    let j = choose|j: int| 0 <= j < entries@.len() && (#[trigger] entries@[j]).0@ == k;
                    if k != key@ {
                        assert(before[j].0@ == k);
                    }
                }
                if has_key(before, k) {
                    let j = choose|j: int| 0 <= j < before.len() && (#[trigger] before[j]).0@ == k;
                    assert(entries@[j].0@ == k);
                }
                if k == key@ {
                    assert(entries@[at].0@ == key@);
                }
            }
            assert forall|k: Seq<char>| after.contains_key(k) implies after[k] == wanted[k] by {
                let j = choose|j: int| 0 <= j < entries@.len() && (#[trigger] entries@[j]).0@ == k;
                if k != key@ {
                    assert(before[j].0@ == k);
                    assert(before[j].1@ == entries@[j].1@);
                }
            }
            assert(after =~= wanted);
        }
        self.entries = entries;
    }

    /// The pairs of the mapping, each once.
    pub fn entries(&self) -> (entries: &Vec<(String, String)>)
        ensures
            lists(entries@, self@),
    {
        proof {
            use_type_invariant(self);
            lemma_lists_mapping(self.entries@);
        }
        &self.entries
    }

    /// Takes over every pair of `other`; where both have a key, the value of `other` stays.
    pub fn merge_from(&mut self, other: &Settings)
        ensures
            final(self)@ == old(self)@.union_prefer_right(other@),
    {
        let pairs = other.entries();
        let ghost start = self@;
        let mut i: usize = 0;
        while i < pairs.len()
            invariant
                i <= pairs@.len(),
                lists(pairs@, other@),
                forall|key: Seq<char>| #[trigger]
                    self@.contains_key(key) <==> start.contains_key(key) || has_key(
                        pairs@.take(i as int),
                        key,
                    ),
                forall|j: int| 0 <= j < i ==> self@[(#[trigger] pairs@[j]).0@] == pairs@[j].1@,
                forall|key: Seq<char>|
                    #![trigger self@[key]]
                    start.contains_key(key) && !has_key(pairs@.take(i as int), key) ==> self@[key]
                        == start[key],
            decreases pairs@.len() - i,
        {
            let ghost held = self@;
            let ghost key = pairs@[i as int].0@;
            self.insert(pairs[i].0.clone(), pairs[i].1.clone());
            proof {
                assert(self@ == held.insert(key, pairs@[i as int].1@));
                let shorter = pairs@.take(i as int);
                let longer = pairs@.take(i + 1);
                assert(longer[i as int] == pairs@[i as int]);
                assert forall|k: Seq<char>| has_key(longer, k) <==> has_key(shorter, k) || k
                    == key by {
                    if has_key(shorter, k) {
                        let j = choose|j: int| 0 <= j < shorter.len() && (#[trigger] shorter[j]).0@ == k;
                        assert(longer[j].0@ == k);
                    }
                    if has_key(longer, k) && k != key {
                        let j = choose|j: int| 0 <= j < longer.len() && (#[trigger] longer[j]).0@ == k;
                        assert(shorter[j].0@ == k);
                    }
                }
                assert forall|k: Seq<char>| #[trigger]
                    self@.contains_key(k) <==> start.contains_key(k) || has_key(longer, k) by {}
            }
            i += 1;
        }
        proof {
            assert(pairs@.take(i as int) =~= pairs@);
            assert(self@ =~= start.union_prefer_right(other@)) by {
                assert forall|k: Seq<char>| other@.contains_key(k) implies self@.contains_key(k)
                    && self@[k] == other@[k] by {
                    let j = choose|j: int| 0 <= j < pairs@.len() && (#[trigger] pairs@[j]).0@ == k;
                    assert(self@[pairs@[j].0@] == pairs@[j].1@);
                    assert(other@[pairs@[j].0@] == pairs@[j].1@);
                    assert(has_key(pairs@.take(i as int), k));
                }
                assert forall|k: Seq<char>| has_key(pairs@, k) implies other@.contains_key(k) by {
                    let j = choose|j: int| 0 <= j < pairs@.len() && (#[trigger] pairs@[j]).0@ == k;
                    assert(other@.contains_key(pairs@[j].0@));
                }
            }
        }
    }
}

/// The variables of the process and their values, as this library sees them.
///
/// The program hands in what the process holds and writes back what comes out: the library
/// itself touches no variable of the process.
pub struct Environment {
    vars: Settings,
}

impl View for Environment {
    type V = Map<Seq<char>, Seq<char>>;

    closed spec fn view(&self) -> Map<Seq<char>, Seq<char>> {
        self.vars@
    }
}

impl Environment {
    /// An environment in which no variable is set.
    pub fn new() -> (env: Self)
        ensures
            env@ == Map::<Seq<char>, Seq<char>>::empty(),
    {
        Environment { vars: Settings::new() }
    }

    /// The value of the variable `name`, if it is set.
    pub fn var(&self, name: &str) -> (value: Option<&String>)
        ensures
            match value {
                Some(text) => self@.contains_key(name@) && text@ == self@[name@],
                None => !self@.contains_key(name@),
            },
    {
        self.vars.get(name)
    }

    /// Whether the variable `name` is set.
    pub fn is_set(&self, name: &str) -> (set: bool)
        ensures
            set == self@.contains_key(name@),
    {
        self.vars.contains_key(name)
    }

    /// The value of `name` for an expansion, where a variable that is not set is an error.
    pub fn lookup(&self, name: &str) -> (found: Result<Option<&String>, &'static str>)
        ensures
            match found {
                Ok(Some(text)) => self@.contains_key(name@) && text@ == self@[name@],
                Ok(None) => false,
                Err(reason) => !self@.contains_key(name@) && reason@
                    == "environment variable not found"@,
            },
    {
        match self.vars.get(name) {
            Some(text) => Ok(Some(text)),
            None => Err("environment variable not found"),
        }
    }

    /// Sets the variable `name` to `value`.
    pub fn set_var(&mut self, name: &str, value: &str)
        ensures
            final(self)@ == old(self)@.insert(name@, value@),
    {
        self.vars.insert(name.to_owned(), value.to_owned());
    }

    /// The variables that are set, each once with its value.
    pub fn vars(&self) -> (vars: &Vec<(String, String)>)
        ensures
            lists(vars@, self@),
    {
        self.vars.entries()
    }
}

} // verus!
