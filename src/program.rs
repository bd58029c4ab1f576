use vstd::prelude::*;

use crate::instructions::Instruction;
use crate::value::Value;

verus! {

/// A list of named entries; the first entry with a name is the one that counts.
pub type Entries = Vec<(String, Value)>;

/// The position of the first entry named `key`.
pub open spec fn find(s: Seq<(String, Value)>, key: Seq<char>) -> Option<int>
    decreases s.len(),
{
    if s.len() == 0 {
        None
    } else if s[0].0@ == key {
        Some(0)
    } else {
        match find(s.drop_first(), key) {
            Some(i) => Some(i + 1),
            None => None,
        }
    }
}

/// The value of the first entry named `key`.
pub open spec fn lookup(s: Seq<(String, Value)>, key: Seq<char>) -> Option<Value> {
    match find(s, key) {
        Some(i) => Some(s[i].1),
        None => None,
    }
}

/// The entries after setting `key` to `value`: the first entry with that
/// name is replaced, or a new entry is added at the end.
pub open spec fn store(s: Seq<(String, Value)>, key: String, value: Value) -> Seq<(String, Value)> {
    match find(s, key@) {
        Some(i) => s.update(i, (key, value)),
        None => s.push((key, value)),
    }
}

pub proof fn lemma_find_is_first(s: Seq<(String, Value)>, key: Seq<char>, i: int)
    requires
        0 <= i <= s.len(),
        forall|j: int| 0 <= j < i ==> s[j].0@ != key,
        i < s.len() ==> s[i].0@ == key,
    ensures
        i < s.len() ==> find(s, key) == Some(i),
        i == s.len() ==> find(s, key) is None,
    decreases i,
{
    if i > 0 {
        lemma_find_is_first(s.drop_first(), key, i - 1);
    }
}

pub proof fn lemma_find_in_bounds(s: Seq<(String, Value)>, key: Seq<char>)
    ensures
        find(s, key) matches Some(i) ==> 0 <= i < s.len() && s[i].0@ == key,
    decreases s.len(),
{
    if s.len() > 0 {
        lemma_find_in_bounds(s.drop_first(), key);
    }
}

/// Looks `key` up among the entries.
pub fn find_entry(entries: &Entries, key: &String) -> (r: Option<usize>)
    ensures
        r matches Some(i) ==> i < entries@.len(),
        r matches Some(i) ==> find(entries@, key@) == Some(i as int),
        r is None ==> find(entries@, key@) is None,
{
    let mut i: usize = 0;
    while i < entries.len()
        invariant
            i <= entries@.len(),
            forall|j: int| 0 <= j < i ==> entries@[j].0@ != key@,
        decreases entries.len() - i,
    {
        if entries[i].0 == *key {
            proof {
                lemma_find_is_first(entries@, key@, i as int);
            }
            return Some(i);
        }
        i = i + 1;
    }
    proof {
        lemma_find_is_first(entries@, key@, i as int);
    }
    None
}

/// The value of the entry named `key`, copied.
pub fn get_entry(entries: &Entries, key: &String) -> (r: Option<Value>)
    ensures
        r == lookup(entries@, key@),
{
    match find_entry(entries, key) {
        Some(i) => Some(entries[i].1.duplicate()),
        None => None,
    }
}

/// Sets the entry named `key` to `value`.
pub fn set_entry(entries: &mut Entries, key: String, value: Value)
    ensures
        final(entries)@ == store(old(entries)@, key, value),
{
    match find_entry(entries, &key) {
        Some(i) => {
            entries.set(i, (key, value));
        },
        None => {
            entries.push((key, value));
        },
    }
}

/// Copies a list of entries.
pub fn duplicate_entries(entries: &Entries) -> (r: Entries)
    ensures
        r@ == entries@,
{
    let mut r: Entries = Vec::new();
    let mut i: usize = 0;
    while i < entries.len()
        invariant
            i <= entries@.len(),
            r@ == entries@.subrange(0, i as int),
        decreases entries.len() - i,
    {
        r.push((entries[i].0.clone(), entries[i].1.duplicate()));
        i = i + 1;
    }
    assert(r@ =~= entries@);
    r
}

/// A compiled program: the flat instruction stream, the global names
/// (constants, functions and classes), and the member template of each class.
#[derive(Clone, Debug)]
pub struct Program {
    pub instructions: Vec<Instruction>,
    pub globals: Entries,
    pub classes: Vec<(String, Entries)>,
}

impl Program {
    pub fn new() -> (r: Program)
        ensures
            r.instructions@.len() == 0,
            r.globals@.len() == 0,
            r.classes@.len() == 0,
    {
        Program { instructions: Vec::new(), globals: Vec::new(), classes: Vec::new() }
    }
}

} // verus!
