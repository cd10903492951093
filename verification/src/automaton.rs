//! The sort automaton: selection sort deliberately slowed to one visible
//! inner-loop step per invocation, driven by an external clock (one call per
//! rendered frame).
//!
//! Each call to [`SortState::advance`] classifies every element into a display
//! role for the frame, performs at most one comparison, and — when the inner
//! cursor has exhausted a pass — emits one swap instruction and moves the
//! outer cursor forward. The host applies the swap to the element store and
//! fires a one-shot cue when the completion signal arrives.

use vstd::prelude::*;

use crate::store::ElementStore;
use crate::store::SwapInstruction;

verus! {

/// The visualization category assigned to an element for one frame.
#[derive(Clone, Copy, Debug, PartialEq, Eq, Structural)]
pub enum Role {
    /// The element at the current pass start.
    Outer,
    /// The element currently compared against the running-shortest candidate.
    Inner,
    /// The smallest element found so far in the current pass.
    Shortest,
    /// Everything else.
    Unmarked,
}

/// Mathematical model of the automaton's cursors and cached heights.
pub ghost struct SortModel {
    /// Index of the current pass start; monotonically non-decreasing.
    pub outer: int,
    /// Index of the element compared this pass; resets to `outer + 1` when a
    /// new pass begins and reaches `n` exactly on the pass's swap frame.
    pub inner: int,
    /// Identity of the smallest element seen so far in the current pass.
    pub shortest_id: int,
    /// Height of that element.
    pub shortest_height: u64,
    /// Cached height of the element at `outer`, refreshed every frame.
    pub outer_height: u64,
}

/// The automaton has nothing left to do once the outer cursor reaches the
/// last position.
pub open spec fn terminal_model(m: SortModel, n: int) -> bool {
    m.outer == n - 1
}

/// Bounds on the cursors that every reachable state satisfies for a store of
/// `n` elements.
pub open spec fn wf_model(m: SortModel, n: int) -> bool {
    &&& n >= 2
    &&& 0 <= m.outer < n
    &&& m.outer + 1 <= m.inner <= n
    &&& 0 <= m.shortest_id < n
}

/// The state right after the frame's role scan: the cached outer height is
/// refreshed, and — when the inner cursor still points at an element — the
/// running-shortest candidate is updated if that element is strictly smaller,
/// or unconditionally on the first comparison of a pass.
pub open spec fn compared(m: SortModel, s: Seq<u64>) -> SortModel {
    let n = s.len() as int;
    let refreshed = SortModel {
        outer: m.outer,
        inner: m.inner,
        shortest_id: m.shortest_id,
        shortest_height: m.shortest_height,
        outer_height: s[m.outer],
    };
    if m.inner < n && (s[m.inner] < m.shortest_height || m.inner == m.outer + 1) {
        SortModel {
            outer: refreshed.outer,
            inner: refreshed.inner,
            shortest_id: m.inner,
            shortest_height: s[m.inner],
            outer_height: refreshed.outer_height,
        }
    } else {
        refreshed
    }
}

/// The state whose cursors determine this frame's role assignment: the
/// post-comparison state, or the unchanged state once the sort is complete.
pub open spec fn display_model(m: SortModel, s: Seq<u64>) -> SortModel {
    if terminal_model(m, s.len() as int) {
        m
    } else {
        compared(m, s)
    }
}

/// The role of identity `i` under cursors `m`, with the fixed precedence
/// Outer over Inner over Shortest over Unmarked.
pub open spec fn role_of(m: SortModel, i: int) -> Role {
    if i == m.outer {
        Role::Outer
    } else if i == m.inner {
        Role::Inner
    } else if i == m.shortest_id {
        Role::Shortest
    } else {
        Role::Unmarked
    }
}

/// The role assignment of one frame, for all `n` identities.
pub open spec fn spec_roles(m: SortModel, n: int) -> Seq<Role> {
    Seq::new(n as nat, |i: int| role_of(m, i))
}

/// A swap is emitted exactly on the frame whose inner cursor has run past the
/// last element, while the sort is not yet complete.
pub open spec fn emits_swap(m: SortModel, n: int) -> bool {
    &&& !terminal_model(m, n)
    &&& m.inner == n
}

/// The swap instruction of a pass-boundary frame: the pass-start identity
/// receives the shortest height found, and the shortest identity receives the
/// height the pass started with.
pub open spec fn expected_swap(m: SortModel, s: Seq<u64>) -> Option<SwapInstruction> {
    if emits_swap(m, s.len() as int) {
        Some(
            SwapInstruction {
                a_id: m.outer as usize,
                b_id: m.shortest_id as usize,
                a_new_height: m.shortest_height,
                b_new_height: s[m.outer],
            },
        )
    } else {
        None
    }
}

/// The completion signal fires exactly once: on the swap frame that moves the
/// outer cursor onto the last position.
pub open spec fn emits_completion(m: SortModel, n: int) -> bool {
    &&& emits_swap(m, n)
    &&& m.outer + 2 == n
}

/// Cursor transition of one frame.
pub open spec fn spec_step(m: SortModel, s: Seq<u64>) -> SortModel {
    let n = s.len() as int;
    if terminal_model(m, n) {
        m
    } else {
        let c = compared(m, s);
        if m.inner == n {
            SortModel {
                outer: c.outer + 1,
                inner: c.outer + 2,
                shortest_id: c.shortest_id,
                shortest_height: c.shortest_height,
                outer_height: c.outer_height,
            }
        } else {
            SortModel {
                outer: c.outer,
                inner: c.inner + 1,
                shortest_id: c.shortest_id,
                shortest_height: c.shortest_height,
                outer_height: c.outer_height,
            }
        }
    }
}

/// Heights after the host applies the frame's swap instruction, if any.
pub open spec fn spec_step_heights(m: SortModel, s: Seq<u64>) -> Seq<u64> {
    if emits_swap(m, s.len() as int) {
        s.update(m.outer, m.shortest_height).update(m.shortest_id, s[m.outer])
    } else {
        s
    }
}

/// The state the automaton is created in: first pass, first comparison
/// pending, element 1 seeded as the shortest candidate.
pub open spec fn init_model(s: Seq<u64>) -> SortModel {
    SortModel { outer: 0, inner: 1, shortest_id: 1, shortest_height: s[1], outer_height: s[0] }
}

/// What one frame hands back to the host: a role per identity, at most one
/// swap instruction, and the one-shot completion signal.
pub struct StepResult {
    pub roles: Vec<Role>,
    pub swap: Option<SwapInstruction>,
    pub completed: bool,
}

/// The selection-sort progress: cursors and cached heights, mutated
/// exclusively by `advance`.
pub struct SortState {
    outer: usize,
    inner: usize,
    shortest_id: usize,
    shortest_height: u64,
    outer_height: u64,
}

impl View for SortState {
    type V = SortModel;

    closed spec fn view(&self) -> SortModel {
        SortModel {
            outer: self.outer as int,
            inner: self.inner as int,
            shortest_id: self.shortest_id as int,
            shortest_height: self.shortest_height,
            outer_height: self.outer_height,
        }
    }
}

impl SortState {
    /// Well-formedness against a store of `n` elements.
    pub open spec fn wf(&self, n: int) -> bool {
        wf_model(self@, n)
    }

    /// Creates the automaton over a freshly built store.
    pub fn new(store: &ElementStore) -> (st: SortState)
        requires
            store.wf(),
        ensures
            st@ == init_model(store@),
            st.wf(store@.len() as int),
    {
        SortState {
            outer: 0,
            inner: 1,
            shortest_id: 1,
            shortest_height: store.get(1),
            outer_height: store.get(0),
        }
    }

    /// The current pass-start index.
    pub fn outer(&self) -> (r: usize)
        ensures
            r as int == self@.outer,
    {
        self.outer
    }

    /// The current comparison index.
    pub fn inner(&self) -> (r: usize)
        ensures
            r as int == self@.inner,
    {
        self.inner
    }

    /// Identity of the running-shortest candidate.
    pub fn shortest_id(&self) -> (r: usize)
        ensures
            r as int == self@.shortest_id,
    {
        self.shortest_id
    }

    /// Height of the running-shortest candidate.
    pub fn shortest_height(&self) -> (r: u64)
        ensures
            r == self@.shortest_height,
    {
        self.shortest_height
    }

    /// Cached height of the element at the pass start.
    pub fn outer_height(&self) -> (r: u64)
        ensures
            r == self@.outer_height,
    {
        self.outer_height
    }

    /// Builds the frame's role vector from the current cursors.
    fn compute_roles(&self, n: usize) -> (roles: Vec<Role>)
        ensures
            roles@ == spec_roles(self@, n as int),
    {
        let mut roles: Vec<Role> = Vec::new();
        let mut i: usize = 0;
        while i < n
            invariant
                i <= n,
                roles@.len() == i as int,
                forall|j: int| 0 <= j < i as int ==> roles@[j] == role_of(self@, j),
            decreases n - i,
        {
            let r = if i == self.outer {
                Role::Outer
            } else if i == self.inner {
                Role::Inner
            } else if i == self.shortest_id {
                Role::Shortest
            } else {
                Role::Unmarked
            };
            roles.push(r);
            i = i + 1;
        }
        proof {
            assert(roles@ =~= spec_roles(self@, n as int));
        }
        roles
    }

    /// One visible step of the sort, invoked once per frame.
    ///
    /// Classifies every element into its role for this frame, updates the
    /// running-shortest candidate when the inner cursor points at an element,
    /// and on a pass-boundary frame emits the pass's swap instruction and
    /// advances the outer cursor. Once the sort is complete the call is a
    /// no-op that returns the terminal role assignment and no swap.
    pub fn advance(&mut self, store: &ElementStore) -> (r: StepResult)
        requires
            store.wf(),
            old(self).wf(store@.len() as int),
        ensures
            final(self)@ == spec_step(old(self)@, store@),
            final(self).wf(store@.len() as int),
            r.roles@ == spec_roles(display_model(old(self)@, store@), store@.len() as int),
            r.swap == expected_swap(old(self)@, store@),
            r.completed == emits_completion(old(self)@, store@.len() as int),
    {
        let n = store.len();
        if self.outer == n - 1 {
            // Terminal state: report the standing role assignment, change nothing.
            let roles = self.compute_roles(n);
            return StepResult { roles, swap: None, completed: false };
        }
        self.outer_height = store.get(self.outer);
        if self.inner < n {
            let h = store.get(self.inner);
            if h < self.shortest_height || self.inner == self.outer + 1 {
                self.shortest_id = self.inner;
                self.shortest_height = h;
            }
        }
        let roles = self.compute_roles(n);
        if self.inner == n {
            let sw = SwapInstruction {
                a_id: self.outer,
                b_id: self.shortest_id,
                a_new_height: self.shortest_height,
                b_new_height: self.outer_height,
            };
            self.outer = self.outer + 1;
            self.inner = self.outer + 1;
            let completed = self.outer == n - 1;
            StepResult { roles, swap: Some(sw), completed }
        } else {
            self.inner = self.inner + 1;
            StepResult { roles, swap: None, completed: false }
        }
    }
}

} // verus!
