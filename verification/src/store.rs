//! The element store: an ordered collection of pillars whose position always
//! equals their identity, so the whole store is a sequence of heights.

use vstd::prelude::*;

verus! {

/// A pillar: a stable identity and the height currently stored at it.
///
/// Identities are assigned at creation and never move; a swap exchanges
/// heights between two identities, never the identities themselves.
#[derive(Clone, Copy, Debug, PartialEq, Eq, Structural)]
pub struct Element {
    pub id: usize,
    pub height: u64,
}

/// Configurations rejected at initialization.
#[derive(Clone, Copy, Debug, PartialEq, Eq, Structural)]
pub enum ConfigError {
    /// The sort is defined only for two or more elements.
    TooFewElements,
}

/// An instruction to exchange the heights held by two identities.
#[derive(Clone, Copy, Debug, PartialEq, Eq, Structural)]
pub struct SwapInstruction {
    pub a_id: usize,
    pub b_id: usize,
    pub a_new_height: u64,
    pub b_new_height: u64,
}

/// Holds the heights of all pillars, indexed by identity.
pub struct ElementStore {
    heights: Vec<u64>,
}

impl View for ElementStore {
    type V = Seq<u64>;

    closed spec fn view(&self) -> Seq<u64> {
        self.heights@
    }
}

impl ElementStore {
    /// Every store holds at least two elements; smaller configurations are
    /// rejected by `new`.
    pub open spec fn wf(&self) -> bool {
        self@.len() >= 2
    }

    /// Builds the store, failing fast when fewer than two heights are given.
    pub fn new(heights: Vec<u64>) -> (r: Result<ElementStore, ConfigError>)
        ensures
            heights@.len() >= 2 ==> (r matches Ok(s) && s@ == heights@ && s.wf()),
            heights@.len() < 2 ==> (r matches Err(e) && e == ConfigError::TooFewElements),
    {
        if heights.len() < 2 {
            Err(ConfigError::TooFewElements)
        } else {
            Ok(ElementStore { heights })
        }
    }

    /// The number of elements.
    pub fn len(&self) -> (n: usize)
        ensures
            n == self@.len(),
    {
        self.heights.len()
    }

    /// The height currently held by identity `id`.
    pub fn get(&self, id: usize) -> (h: u64)
        requires
            id < self@.len(),
        ensures
            h == self@[id as int],
    {
        self.heights[id]
    }

    /// Stores `value` as the height held by identity `id`.
    pub fn set_height(&mut self, id: usize, value: u64)
        requires
            id < old(self)@.len(),
        ensures
            final(self)@ == old(self)@.update(id as int, value),
    {
        self.heights.set(id, value);
    }

    /// Applies a swap instruction; the store is the sole mutator of heights.
    pub fn apply_swap(&mut self, sw: &SwapInstruction)
        requires
            sw.a_id < old(self)@.len(),
            sw.b_id < old(self)@.len(),
        ensures
            final(self)@ == old(self)@.update(sw.a_id as int, sw.a_new_height).update(
                sw.b_id as int,
                sw.b_new_height,
            ),
    {
        self.set_height(sw.a_id, sw.a_new_height);
        self.set_height(sw.b_id, sw.b_new_height);
    }

    /// The elements in identity order.
    pub fn elements(&self) -> (v: Vec<Element>)
        ensures
            v@.len() == self@.len(),
            forall|i: int|
                0 <= i < self@.len() ==> v@[i] == (Element { id: i as usize, height: self@[i] }),
    {
        let mut v: Vec<Element> = Vec::new();
        let mut i: usize = 0;
        while i < self.heights.len()
            invariant
                i <= self@.len(),
                v@.len() == i as int,
                forall|j: int|
                    0 <= j < i as int ==> v@[j] == (Element { id: j as usize, height: self@[j] }),
            decreases self@.len() - i,
        {
            v.push(Element { id: i, height: self.heights[i] });
            i = i + 1;
        }
        v
    }
}

} // verus!
