//! Data attached to cells: a layer maps cells to values; per-cell flag bits;
//! and the aggregation kinds used over cell data.

use vstd::prelude::*;
use std::collections::HashMap;
use vstd::std_specs::hash::spec_keys_iter;
use vstd::std_specs::iter::IteratorSpec;
use crate::id::{cell_values, CellID};

verus! {

broadcast use vstd::std_specs::hash::group_hash_axioms;

/// A named map from cells to values of type `T`.
#[derive(Debug, Clone)]
pub struct Layer<T> {
    name: String,
    data: HashMap<u128, T>,
}

impl<T> View for Layer<T> {
    type V = Map<u128, T>;

    /// The values by raw cell value.
    closed spec fn view(&self) -> Map<u128, T> {
        self.data@
    }
}

/// The raw values of the stored keys, in iteration order.
fn stored_keys<T>(m: &HashMap<u128, T>) -> (r: Vec<u128>)
    ensures
        r@.to_set() == m@.dom(),
        r@.no_duplicates(),
{
    let ghost all: Seq<u128> = spec_keys_iter(m).remaining().unref();
    let mut out: Vec<u128> = Vec::new();
    for k in it: m.keys()
        invariant
            it.seq().unref() == all,
            out@ == all.take(it.index() as int),
    {
        assert(all.take(it.index() as int + 1) == all.take(it.index() as int).push(*k));
        out.push(*k);
    }
    assert(all.take(all.len() as int) == all);
    out
}

impl<T> Layer<T> {
    /// The layer's name.
    pub closed spec fn spec_name(&self) -> Seq<char> {
        self.name@
    }

    /// An empty layer with the given name.
    pub fn new(name: &str) -> (r: Self)
        ensures
            r@ == Map::<u128, T>::empty(),
            r.spec_name() == name@,
    {
        Self { name: name.to_owned(), data: HashMap::new() }
    }

    /// The layer's name.
    pub fn name(&self) -> (r: &str)
        ensures
            r@ == self.spec_name(),
    {
        self.name.as_str()
    }

    /// Stores `value` for `cell`, replacing any value it had.
    pub fn set(&mut self, cell: CellID, value: T)
        ensures
            final(self)@ == old(self)@.insert(cell@, value),
            final(self).spec_name() == old(self).spec_name(),
    {
        self.data.insert(cell.raw_value(), value);
    }

    /// The value stored for `cell`, if any.
    pub fn get(&self, cell: &CellID) -> (r: Option<&T>)
        ensures
            match r {
                Some(v) => self@.contains_key(cell@) && *v == self@[cell@],
                None => !self@.contains_key(cell@),
            },
    {
        let key = cell.raw_value();
        self.data.get(&key)
    }

    /// Removes the value stored for `cell` and returns it, if any.
    pub fn remove(&mut self, cell: &CellID) -> (r: Option<T>)
        ensures
            final(self)@ == old(self)@.remove(cell@),
            final(self).spec_name() == old(self).spec_name(),
            match r {
                Some(v) => old(self)@.contains_key(cell@) && v == old(self)@[cell@],
                None => !old(self)@.contains_key(cell@),
            },
    {
        let key = cell.raw_value();
        self.data.remove(&key)
    }

    /// Whether a value is stored for `cell`.
    pub fn contains(&self, cell: &CellID) -> (r: bool)
        ensures
            r == self@.contains_key(cell@),
    {
        let key = cell.raw_value();
        self.data.contains_key(&key)
    }

    /// Number of cells with a value.
    pub fn len(&self) -> (r: usize)
        ensures
            r == self@.len(),
    {
        self.data.len()
    }

    /// Whether no cell has a value.
    pub fn is_empty(&self) -> (r: bool)
        ensures
            r == (self@.len() == 0),
    {
        self.data.is_empty()
    }

    /// The cells with a value, each once, in no particular order.
    pub fn cell_ids(&self) -> (r: Vec<CellID>)
        ensures
            cell_values(r@).to_set() == self@.dom(),
            cell_values(r@).no_duplicates(),
    {
        let keys = stored_keys(&self.data);
        let mut out: Vec<CellID> = Vec::with_capacity(keys.len());
        let mut i: usize = 0;
        while i < keys.len()
            invariant
                i <= keys@.len(),
                cell_values(out@) == keys@.take(i as int),
            decreases keys@.len() - i,
        {
            out.push(CellID::from_stored_value(keys[i]));
            assert(keys@.take(i as int + 1) == keys@.take(i as int).push(keys@[i as int]));
            i = i + 1;
        }
        assert(keys@.take(keys@.len() as int) == keys@);
        out
    }

    /// Removes every value.
    pub fn clear(&mut self)
        ensures
            final(self)@ == Map::<u128, T>::empty(),
            final(self).spec_name() == old(self).spec_name(),
    {
        self.data.clear();
    }
}

impl<T: Copy> Layer<T> {
    /// Every cell with its value, each cell once, in no particular order.
    pub fn entries(&self) -> (r: Vec<(CellID, T)>)
        ensures
            r@.len() == self@.len(),
            forall|i: int| 0 <= i < r@.len() ==> #[trigger] self@.contains_key(r@[i].0@) && self@[r@[i].0@] == r@[i].1,
            forall|i: int, j: int| 0 <= i < j < r@.len() ==> r@[i].0@ != r@[j].0@,
            forall|k: u128| self@.contains_key(k) ==> exists|i: int| 0 <= i < r@.len() && #[trigger] r@[i].0@ == k,
    {
        let keys = stored_keys(&self.data);
        proof {
            keys@.unique_seq_to_set();
        }
        let mut out: Vec<(CellID, T)> = Vec::with_capacity(keys.len());
        let mut i: usize = 0;
        while i < keys.len()
            invariant
                i <= keys@.len(),
                keys@.to_set() == self@.dom(),
                keys@.no_duplicates(),
                out@.len() == i,
                forall|j: int| 0 <= j < i ==> #[trigger] out@[j].0@ == keys@[j] && self@.contains_key(keys@[j]) && self@[keys@[j]] == out@[j].1,
            decreases keys@.len() - i,
        {
            let key = keys[i];
            assert(keys@.to_set().contains(key));
            let v = *self.data.get(&key).unwrap();
            out.push((CellID::from_stored_value(key), v));
            i = i + 1;
        }
        proof {
            assert forall|k: u128| self@.contains_key(k) implies exists|i: int| 0 <= i < out@.len() && #[trigger] out@[i].0@ == k by {
                assert(keys@.to_set().contains(k));
                let i = choose|i: int| 0 <= i < keys@.len() && keys@[i] == k;
                assert(out@[i].0@ == k);
            }
        }
        out
    }
}

/// Reading a layer gives back the last value written for the cell, and
/// writing one cell leaves every other cell as it was.
pub proof fn lemma_set_then_get<T>(m: Map<u128, T>, cell: u128, value: T, other: u128)
    ensures
        m.insert(cell, value).contains_key(cell),
        m.insert(cell, value)[cell] == value,
        other != cell ==> (m.insert(cell, value).contains_key(other) <==> m.contains_key(other)),
        other != cell && m.contains_key(other) ==> m.insert(cell, value)[other] == m[other],
{
}

/// After a removal the cell has no value, and every other cell is as it was.
pub proof fn lemma_remove_then_absent<T>(m: Map<u128, T>, cell: u128, other: u128)
    ensures
        !m.remove(cell).contains_key(cell),
        other != cell ==> (m.remove(cell).contains_key(other) <==> m.contains_key(other)),
        other != cell && m.contains_key(other) ==> m.remove(cell)[other] == m[other],
{
}

/// How the values of several cells combine into one.
#[derive(Debug, Clone, Copy, PartialEq, Eq)]
pub enum Aggregation {
    Count,
    Sum,
    Mean,
    Min,
    Max,
    Median,
}

/// Flag bits for common cell properties.
#[derive(Debug, Clone, Copy, PartialEq, Eq)]
pub struct CellFlags {
    bits: u32,
}

impl CellFlags {
    pub const NONE: u32 = 0;
    pub const BLOCKED: u32 = 1;
    pub const NO_FLY: u32 = 2;
    pub const WATER: u32 = 4;
    pub const BOUNDARY: u32 = 8;

    /// The raw flag word.
    pub closed spec fn spec_bits(&self) -> u32 {
        self.bits
    }

    /// Whether any bit of `flag` is set in `bits`.
    pub open spec fn flag_set(bits: u32, flag: u32) -> bool {
        bits & flag != 0
    }

    pub fn new(bits: u32) -> (r: Self)
        ensures
            r.spec_bits() == bits,
    {
        Self { bits }
    }

    pub fn empty() -> (r: Self)
        ensures
            r.spec_bits() == 0,
    {
        Self { bits: 0 }
    }

    pub fn has_flag(&self, flag: u32) -> (r: bool)
        ensures
            r == Self::flag_set(self.spec_bits(), flag),
    {
        self.bits & flag != 0
    }

    pub fn set_flag(&mut self, flag: u32)
        ensures
            final(self).spec_bits() == old(self).spec_bits() | flag,
    {
        self.bits = self.bits | flag;
    }

    pub fn clear_flag(&mut self, flag: u32)
        ensures
            final(self).spec_bits() == old(self).spec_bits() & !flag,
    {
        self.bits = self.bits & !flag;
    }

    pub fn is_blocked(&self) -> (r: bool)
        ensures
            r == Self::flag_set(self.spec_bits(), Self::BLOCKED),
    {
        self.has_flag(Self::BLOCKED)
    }

    pub fn bits(&self) -> (r: u32)
        ensures
            r == self.spec_bits(),
    {
        self.bits
    }
}

/// Setting a nonzero flag makes it present; clearing a flag makes it absent;
/// and neither touches a flag that shares no bit with it.
pub proof fn lemma_flag_set_clear(bits: u32, flag: u32, other: u32)
    by (bit_vector)
    ensures
        flag != 0 ==> CellFlags::flag_set(bits | flag, flag),
        !CellFlags::flag_set(bits & !flag, flag),
        flag & other == 0 ==> (CellFlags::flag_set(bits | flag, other) == CellFlags::flag_set(bits, other)),
        flag & other == 0 ==> (CellFlags::flag_set(bits & !flag, other) == CellFlags::flag_set(bits, other)),
{
}

} // verus!
