//! Process environments as byte strings.
use crate::text;
use vstd::prelude::*;
use vstd::string::*;

verus! {

/// Variables and their values. A later assignment replaces an earlier one of
/// the same name.
#[derive(Debug)]
pub struct Environment {
    entries: Vec<(Vec<u8>, Vec<u8>)>,
}

/// What the first `count` assignments come to.
pub open spec fn assigned(entries: Seq<(Vec<u8>, Vec<u8>)>, count: int) -> Map<Seq<u8>, Seq<u8>>
    decreases count,
{
    if count <= 0 {
        Map::empty()
    } else {
        assigned(entries, count - 1).insert(entries[count - 1].0@, entries[count - 1].1@)
    }
}

proof fn lemma_assigned_prefix(
    left: Seq<(Vec<u8>, Vec<u8>)>,
    right: Seq<(Vec<u8>, Vec<u8>)>,
    count: int,
)
    requires
        0 <= count <= left.len(),
        count <= right.len(),
        forall|i: int| 0 <= i < count ==> left[i] == right[i],
    ensures
        assigned(left, count) == assigned(right, count),
    decreases count,
{
    if count > 0 {
        lemma_assigned_prefix(left, right, count - 1);
    }
}

impl View for Environment {
    type V = Map<Seq<u8>, Seq<u8>>;

    closed spec fn view(&self) -> Map<Seq<u8>, Seq<u8>> {
        assigned(self.entries@, self.entries@.len() as int)
    }
}

/// The value of a variable.
pub open spec fn value_of(environment: Map<Seq<u8>, Seq<u8>>, name: Seq<u8>) -> Option<Seq<u8>> {
    if environment.contains_key(name) {
        Some(environment[name])
    } else {
        None
    }
}

impl Environment {
    pub fn new() -> (result: Self)
        ensures
            result@ == Map::<Seq<u8>, Seq<u8>>::empty(),
    {
        Environment { entries: Vec::new() }
    }

    /// Assigns a variable.
    pub fn insert(&mut self, name: Vec<u8>, value: Vec<u8>)
        ensures
            final(self)@ == old(self)@.insert(name@, value@),
    {
        let ghost before = self.entries@;
        self.entries.push((name, value));
        proof {
            lemma_assigned_prefix(before, self.entries@, before.len() as int);
        }
    }

    /// Assigns a variable of a known name.
    pub fn set(&mut self, name: &str, value: &[u8])
        ensures
            final(self)@ == old(self)@.insert(name.spec_bytes(), value@),
    {
        self.insert(
            vstd::slice::slice_to_vec(name.as_bytes()),
            vstd::slice::slice_to_vec(value),
        );
    }

    /// The value of a variable.
    pub fn get(&self, name: &[u8]) -> (result: Option<&[u8]>)
        ensures
            match result {
                Some(value) => value_of(self@, name@) == Some(value@),
                None => value_of(self@, name@) is None,
            },
    {
        let mut index: usize = self.entries.len();
        while index > 0
            invariant
                index <= self.entries@.len(),
                value_of(self@, name@) == value_of(assigned(self.entries@, index as int), name@),
            decreases index,
        {
            let entry = &self.entries[index - 1];
            if text::same_bytes(entry.0.as_slice(), name) {
                return Some(entry.1.as_slice());
            }
            index = index - 1;
        }
        None
    }

    /// Whether a variable is assigned.
    pub fn contains(&self, name: &[u8]) -> (result: bool)
        ensures
            result == self@.contains_key(name@),
    {
        self.get(name).is_some()
    }

    /// The assignments, in order.
    pub fn entries(&self) -> (result: &[(Vec<u8>, Vec<u8>)])
        ensures
            assigned(result@, result@.len() as int) == self@,
    {
        self.entries.as_slice()
    }

    /// Whether nothing was assigned.
    pub fn is_empty(&self) -> (result: bool)
        ensures
            result == (self@ == Map::<Seq<u8>, Seq<u8>>::empty()),
    {
        if self.entries.len() > 0 {
            assert(self@.contains_key(self.entries@.last().0@));
            assert(!Map::<Seq<u8>, Seq<u8>>::empty().contains_key(self.entries@.last().0@));
            false
        } else {
            true
        }
    }
}

} // verus!
