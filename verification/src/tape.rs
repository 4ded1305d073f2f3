//! The memory of a running program: one byte per cell, every cell zero
//! until it is written.
//!
//! Two storage strategies are offered. The sparse one keeps a hash map of
//! the non-zero cells; the dense one keeps a vector that grows, filled with
//! zeros, up to the highest cell that holds a non-zero value. Both present
//! the same contents and the same contracts, so nothing a caller can observe
//! but the memory used tells them apart.

use std::collections::HashMap;
use vstd::prelude::*;

verus! {

broadcast use vstd::std_specs::hash::group_hash_axioms;

/// The storage strategy of a tape.
#[derive(Debug, Clone, Copy, PartialEq, Eq, Structural)]
pub enum TapeModel {
    Sparse,
    Dense,
}

/// The value of cell `index` in the contents `m`: absent cells are zero.
pub open spec fn cell(m: Map<usize, u8>, index: usize) -> u8 {
    if m.contains_key(index) {
        m[index]
    } else {
        0
    }
}

/// The contents `m` after `value` is stored at `index`. A zero is stored by
/// removing the entry.
pub open spec fn written(m: Map<usize, u8>, index: usize, value: u8) -> Map<usize, u8> {
    if value == 0 {
        m.remove(index)
    } else {
        m.insert(index, value)
    }
}

/// No entry of `m` holds zero.
pub open spec fn canonical(m: Map<usize, u8>) -> bool {
    forall|k: usize| m.contains_key(k) ==> #[trigger] m[k] != 0
}

/// `value + 1` modulo 256.
pub open spec fn wrapping_inc(value: u8) -> u8 {
    ((value + 1) % 256) as u8
}

/// `value - 1` modulo 256.
pub open spec fn wrapping_dec(value: u8) -> u8 {
    ((value + 255) % 256) as u8
}

/// The non-zero cells of a dense store.
pub open spec fn dense_contents(v: Seq<u8>) -> Map<usize, u8> {
    Map::new(|i: usize| i < v.len() && v[i as int] != 0, |i: usize| v[i as int])
}

/// The cells of a tape, held in one of the two ways.
enum Store {
    Sparse(HashMap<usize, u8>),
    Dense(Vec<u8>),
}

/// A tape in one of the two storage strategies.
pub struct Tape {
    store: Store,
}

impl View for Tape {
    type V = Map<usize, u8>;

    /// The non-zero cells, by index.
    closed spec fn view(&self) -> Map<usize, u8> {
        match self.store {
            Store::Sparse(m) => m@,
            Store::Dense(v) => dense_contents(v@),
        }
    }
}

impl Tape {
    /// The representation is in canonical form: a sparse store holds no
    /// zero.
    pub closed spec fn wf(&self) -> bool {
        match self.store {
            Store::Sparse(m) => canonical(m@),
            Store::Dense(v) => true,
        }
    }

    /// The storage strategy this tape was made with.
    pub closed spec fn spec_model(&self) -> TapeModel {
        match self.store {
            Store::Sparse(m) => TapeModel::Sparse,
            Store::Dense(v) => TapeModel::Dense,
        }
    }

    /// The contents of a well-formed tape never hold a zero, whatever the
    /// storage strategy.
    pub proof fn lemma_contents_canonical(&self)
        requires
            self.wf(),
        ensures
            canonical(self@),
    {
    }

    /// An empty tape: every cell reads zero.
    pub fn new(model: TapeModel) -> (t: Tape)
        ensures
            t.wf(),
            t@ == Map::<usize, u8>::empty(),
            t.spec_model() == model,
    {
        match model {
            TapeModel::Sparse => Tape { store: Store::Sparse(HashMap::new()) },
            TapeModel::Dense => {
                let v: Vec<u8> = Vec::new();
                Tape { store: Store::Dense(v) }
            },
        }
    }

    /// The storage strategy this tape was made with.
    #[verifier::when_used_as_spec(spec_model)]
    pub fn model(&self) -> (m: TapeModel)
        ensures
            m == self.spec_model(),
    {
        match &self.store {
            Store::Sparse(_) => TapeModel::Sparse,
            Store::Dense(_) => TapeModel::Dense,
        }
    }

    /// The value of cell `index`; zero if it was never written.
    pub fn read(&self, index: usize) -> (value: u8)
        requires
            self.wf(),
        ensures
            value == cell(self@, index),
    {
        match &self.store {
            Store::Sparse(m) => {
                match m.get(&index) {
                    Some(b) => *b,
                    None => 0,
                }
            },
            Store::Dense(v) => {
                if index < v.len() {
                    v[index]
                } else {
                    0
                }
            },
        }
    }

    /// Stores `value` in cell `index`. No other cell changes.
    pub fn write(&mut self, index: usize, value: u8)
        requires
            old(self).wf(),
        ensures
            final(self).wf(),
            final(self)@ == written(old(self)@, index, value),
            final(self).spec_model() == old(self).spec_model(),
    {
        match &mut self.store {
            Store::Sparse(m) => {
                if value == 0 {
                    m.remove(&index);
                } else {
                    m.insert(index, value);
                }
            },
            Store::Dense(v) => {
                let ghost before = v@;
                if index < v.len() {
                    v.set(index, value);
                } else if value != 0 {
                    while v.len() < index
                        invariant
                            v@.len() <= index,
                            dense_contents(v@) == dense_contents(before),
                        decreases index - v@.len(),
                    {
                        let ghost shorter = v@;
                        v.push(0);
                    }
                    v.push(value);
                }
            },
        }
    }

    /// Adds one to cell `index`, wrapping from 255 to 0.
    pub fn increment(&mut self, index: usize)
        requires
            old(self).wf(),
        ensures
            final(self).wf(),
            final(self)@ == written(old(self)@, index, wrapping_inc(cell(old(self)@, index))),
            final(self).spec_model() == old(self).spec_model(),
    {
        let v = self.read(index);
        let next: u8 = if v == 255 {
            0
        } else {
            v + 1
        };
        self.write(index, next);
    }

    /// Subtracts one from cell `index`, wrapping from 0 to 255.
    pub fn decrement(&mut self, index: usize)
        requires
            old(self).wf(),
        ensures
            final(self).wf(),
            final(self)@ == written(old(self)@, index, wrapping_dec(cell(old(self)@, index))),
            final(self).spec_model() == old(self).spec_model(),
    {
        let v = self.read(index);
        let next: u8 = if v == 0 {
            255
        } else {
            v - 1
        };
        self.write(index, next);
    }

    /// The non-zero cells as a map from index to value.
    pub fn contents(&self) -> (m: HashMap<usize, u8>)
        requires
            self.wf(),
        ensures
            m@ == self@,
    {
        match &self.store {
            Store::Sparse(cells) => cells.clone(),
            Store::Dense(cells) => {
                let mut m: HashMap<usize, u8> = HashMap::new();
                let mut i: usize = 0;
                while i < cells.len()
                    invariant
                        i <= cells@.len(),
                        m@ == dense_contents(cells@.take(i as int)),
                    decreases cells@.len() - i,
                {
                    let v = cells[i];
                    if v != 0 {
                        m.insert(i, v);
                    }
                    assert(dense_contents(cells@.take(i + 1)) =~= written(
                        dense_contents(cells@.take(i as int)),
                        i,
                        v,
                    ));
                    i += 1;
                }
                m
            },
        }
    }
}

} // verus!
