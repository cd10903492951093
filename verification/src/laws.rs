//! The automaton's guarantees, stated and proved over the mathematical model
//! that the contracts in `automaton` speak of: a `Config` pairs the cursor
//! model with the height sequence, `step_config` is one frame (cursor
//! transition plus the host applying the frame's swap instruction), and
//! `iter_config` repeats it.

use vstd::prelude::*;

use crate::automaton::SortModel;
use crate::automaton::Role;
use crate::automaton::display_model;
use crate::automaton::emits_swap;
use crate::automaton::expected_swap;
use crate::automaton::init_model;
use crate::automaton::role_of;
use crate::automaton::spec_step;
use crate::automaton::spec_step_heights;
use crate::automaton::terminal_model;
use crate::automaton::wf_model;

verus! {

/// One point of a run: the automaton's cursors together with the heights the
/// store holds at that frame.
pub ghost struct Config {
    pub m: SortModel,
    pub h: Seq<u64>,
}

/// The configuration a run starts from.
pub open spec fn init_config(h: Seq<u64>) -> Config {
    Config { m: init_model(h), h: h }
}

/// One frame: the cursors advance, and the host applies the emitted swap
/// instruction, if any, to the heights.
pub open spec fn step_config(c: Config) -> Config {
    Config { m: spec_step(c.m, c.h), h: spec_step_heights(c.m, c.h) }
}

/// `k` frames in a row.
pub open spec fn iter_config(c: Config, k: nat) -> Config
    decreases k,
{
    if k == 0 {
        c
    } else {
        iter_config(step_config(c), (k - 1) as nat)
    }
}

/// The `k`-th triangular number.
pub open spec fn tri(k: nat) -> nat
    decreases k,
{
    if k == 0 {
        0
    } else {
        k + tri((k - 1) as nat)
    }
}

/// How many frames are left until the sort completes: the rest of the current
/// pass, then one frame per comparison and one per pass boundary for the
/// passes still to come.
pub open spec fn steps_remaining(m: SortModel, n: int) -> int {
    (n - m.inner) + tri((n - 1 - m.outer) as nat)
}

/// Closed form of the run length for `n` elements: one frame per inner-loop
/// comparison plus the pass-boundary frame of each of the `n - 1` passes.
pub open spec fn total_steps(n: int) -> int {
    n * (n - 1) / 2 + (n - 1)
}

proof fn lemma_tri_twice(k: nat)
    ensures
        2 * tri(k) == k * (k + 1),
    decreases k,
{
    if k == 0 {
    } else {
        let p = (k - 1) as nat;
        lemma_tri_twice(p);
        assert(tri(k) == k + tri(p));
        assert(2 * k + p * (p + 1) == k * (k + 1)) by (nonlinear_arith)
            requires
                k >= 1,
                p == k - 1,
        ;
    }
}

proof fn lemma_tri_closed_form(k: nat)
    ensures
        tri(k) == k * (k + 1) / 2,
{
    lemma_tri_twice(k);
    assert((2 * tri(k)) / 2 == tri(k)) by (nonlinear_arith);
}

/// A well-formed state is terminal exactly when no frames are left.
pub proof fn lemma_terminal_iff_no_steps(m: SortModel, n: int)
    requires
        wf_model(m, n),
    ensures
        terminal_model(m, n) <==> steps_remaining(m, n) == 0,
{
    if terminal_model(m, n) {
        assert(tri((n - 1 - m.outer) as nat) == 0);
    } else {
        let k = (n - 1 - m.outer) as nat;
        assert(tri(k) == k + tri((k - 1) as nat));
    }
}

/// One frame of a sort still in progress consumes exactly one remaining step
/// and keeps the state well formed.
pub proof fn lemma_step_decreases(m: SortModel, s: Seq<u64>)
    requires
        wf_model(m, s.len() as int),
        !terminal_model(m, s.len() as int),
    ensures
        wf_model(spec_step(m, s), s.len() as int),
        steps_remaining(spec_step(m, s), s.len() as int) == steps_remaining(m, s.len() as int)
            - 1,
{
    let n = s.len() as int;
    if m.inner == n {
        let k = (n - 1 - m.outer) as nat;
        assert(tri(k) == k + tri((k - 1) as nat));
    }
}

/// Iterating within the remaining step budget: the height count never
/// changes, the state stays well formed, and each frame consumes one step.
pub proof fn lemma_iter_within_budget(c: Config, k: nat)
    requires
        wf_model(c.m, c.h.len() as int),
        k <= steps_remaining(c.m, c.h.len() as int),
    ensures
        iter_config(c, k).h.len() == c.h.len(),
        wf_model(iter_config(c, k).m, c.h.len() as int),
        steps_remaining(iter_config(c, k).m, c.h.len() as int) == steps_remaining(
            c.m,
            c.h.len() as int,
        ) - k,
    decreases k,
{
    let n = c.h.len() as int;
    if k == 0 {
    } else {
        lemma_terminal_iff_no_steps(c.m, n);
        lemma_step_decreases(c.m, c.h);
        lemma_iter_within_budget(step_config(c), (k - 1) as nat);
    }
}

/// Step count: a run over `n` elements completes on exactly the
/// `total_steps(n)`-th call — no earlier frame is terminal, and the state
/// reached after `total_steps(n)` frames is.
pub proof fn lemma_step_count(h: Seq<u64>)
    requires
        h.len() >= 2,
    ensures
        steps_remaining(init_model(h), h.len() as int) == total_steps(h.len() as int),
        forall|k: nat|
            k < total_steps(h.len() as int) ==> !terminal_model(
                iter_config(init_config(h), k).m,
                h.len() as int,
            ),
        terminal_model(
            iter_config(init_config(h), total_steps(h.len() as int) as nat).m,
            h.len() as int,
        ),
{
    let n = h.len() as int;
    let c = init_config(h);
    let p = (n - 1) as nat;
    lemma_tri_closed_form(p);
    assert(p * (p + 1) == n * (n - 1)) by (nonlinear_arith)
        requires
            n >= 2,
            p == n - 1,
    ;
    let total = total_steps(n);
    assert(steps_remaining(c.m, n) == total);
    assert forall|k: nat| k < total implies !terminal_model(iter_config(c, k).m, n) by {
        lemma_iter_within_budget(c, k);
        lemma_terminal_iff_no_steps(iter_config(c, k).m, n);
    }
    lemma_iter_within_budget(c, total as nat);
    lemma_terminal_iff_no_steps(iter_config(c, total as nat).m, n);
}

/// Idempotent terminal state: once the sort is complete, any number of
/// further frames leaves both the cursors and the heights unchanged.
pub proof fn lemma_terminal_idempotent(c: Config, k: nat)
    requires
        terminal_model(c.m, c.h.len() as int),
    ensures
        iter_config(c, k) == c,
    decreases k,
{
    if k == 0 {
    } else {
        assert(step_config(c) == c);
        lemma_terminal_idempotent(c, (k - 1) as nat);
    }
}

/// Role exclusivity for one frame's cursors: exactly one identity is Outer;
/// exactly one is Inner unless the frame is a pass boundary (the inner cursor
/// then points past the last element and no identity is Inner); and at most
/// one identity is Shortest.
///
/// The roles a frame reports are `spec_roles(display_model(m, s), n)`, and
/// `display_model` keeps the state well formed, so this applies to every
/// frame of a run.
pub proof fn lemma_role_exclusivity(m: SortModel, n: int)
    requires
        wf_model(m, n),
    ensures
        role_of(m, m.outer) == Role::Outer,
        forall|i: int| 0 <= i < n && i != m.outer ==> role_of(m, i) != Role::Outer,
        m.inner < n ==> role_of(m, m.inner) == Role::Inner,
        m.inner == n ==> forall|i: int| 0 <= i < n ==> role_of(m, i) != Role::Inner,
        forall|i: int, j: int|
            0 <= i < j < n && role_of(m, i) == Role::Shortest ==> role_of(m, j) != Role::Shortest,
{
}

/// The role scan keeps the cursor state well formed, so
/// `lemma_role_exclusivity` applies to the cursors every frame displays.
pub proof fn lemma_display_wf(m: SortModel, s: Seq<u64>)
    requires
        wf_model(m, s.len() as int),
    ensures
        wf_model(display_model(m, s), s.len() as int),
{
}

/// A host that applies each emitted swap instruction through
/// `ElementStore::apply_swap` — first height to the first identity, second to
/// the second — performs exactly the height transition `spec_step_heights`;
/// on every other frame the heights stand still.
pub proof fn lemma_swap_application_matches(m: SortModel, s: Seq<u64>)
    requires
        wf_model(m, s.len() as int),
        s.len() <= usize::MAX,
    ensures
        !emits_swap(m, s.len() as int) ==> spec_step_heights(m, s) == s,
        emits_swap(m, s.len() as int) ==> (expected_swap(m, s) matches Some(sw)
            && spec_step_heights(m, s) == s.update(sw.a_id as int, sw.a_new_height).update(
            sw.b_id as int,
            sw.b_new_height,
        )),
{
}

/// Index of the first occurrence of the minimum of `s[lo..=j]`, as the
/// incremental scan computes it: a later element displaces the candidate
/// only when strictly smaller.
pub open spec fn scan_shortest(s: Seq<u64>, lo: int, j: int) -> int
    decreases j - lo,
{
    if j <= lo {
        lo
    } else if s[j] < s[scan_shortest(s, lo, j - 1)] {
        j
    } else {
        scan_shortest(s, lo, j - 1)
    }
}

/// Heights after one full pass starting at `o`: the pass scans positions
/// `o + 1` through the end, then exchanges the height at `o` with the
/// shortest height found.
pub open spec fn pass_swap(s: Seq<u64>, o: int) -> Seq<u64> {
    let mi = scan_shortest(s, o + 1, s.len() - 1);
    s.update(o, s[mi]).update(mi, s[o])
}

/// Heights after running every remaining pass, from `o` to the last.
pub open spec fn run_from(s: Seq<u64>, o: int) -> Seq<u64>
    decreases s.len() - 1 - o,
    via run_from_decreases
{
    if o < 0 || o >= s.len() - 1 {
        s
    } else {
        run_from(pass_swap(s, o), o + 1)
    }
}

#[via_fn]
proof fn run_from_decreases(s: Seq<u64>, o: int) {
    if 0 <= o < s.len() - 1 {
        lemma_pass_swap_len(s, o);
    }
}

/// A pass never changes how many heights there are.
pub proof fn lemma_pass_swap_len(s: Seq<u64>, o: int)
    requires
        0 <= o < s.len() - 1,
    ensures
        pass_swap(s, o).len() == s.len(),
{
    lemma_scan_bounds(s, o + 1, s.len() - 1);
}

/// Because a pass scans from `outer + 1` — never comparing the pass-start
/// element itself — a pass keeps the front correct exactly when the height
/// at the pass start is no smaller than the shortest height it scans.
/// `run_ok` says this holds at every remaining pass; it characterizes
/// exactly the initial height sequences whose run ends sorted.
pub open spec fn run_ok(s: Seq<u64>, o: int) -> bool
    decreases s.len() - 1 - o,
    via run_ok_decreases
{
    o < 0 || o >= s.len() - 1 || {
        &&& s[scan_shortest(s, o + 1, s.len() - 1)] <= s[o]
        &&& run_ok(pass_swap(s, o), o + 1)
    }
}

#[via_fn]
proof fn run_ok_decreases(s: Seq<u64>, o: int) {
    if 0 <= o < s.len() - 1 {
        lemma_pass_swap_len(s, o);
    }
}

/// Non-decreasing in identity order.
pub open spec fn is_sorted(s: Seq<u64>) -> bool {
    forall|i: int, j: int| 0 <= i <= j < s.len() ==> s[i] <= s[j]
}

/// How a reachable cursor state relates to the heights: past the first
/// comparison of a pass, the shortest candidate is the one determined by the
/// scan so far, and the cached heights are current. (At a pass start the
/// candidate fields still hold the previous pass's values; the first
/// comparison overwrites them unconditionally.)
pub open spec fn pass_inv(c: Config) -> bool {
    let n = c.h.len() as int;
    &&& wf_model(c.m, n)
    &&& (c.m.inner > c.m.outer + 1 ==> {
        &&& c.m.shortest_id == scan_shortest(c.h, c.m.outer + 1, c.m.inner - 1)
        &&& c.m.shortest_height == c.h[c.m.shortest_id]
        &&& c.m.outer_height == c.h[c.m.outer]
    })
}

/// The scan picks an index in range whose height is minimal among those
/// scanned.
pub proof fn lemma_scan_bounds(s: Seq<u64>, lo: int, j: int)
    requires
        0 <= lo <= j < s.len(),
    ensures
        lo <= scan_shortest(s, lo, j) <= j,
        forall|k: int| lo <= k <= j ==> s[scan_shortest(s, lo, j)] <= #[trigger] s[k],
    decreases j - lo,
{
    if j == lo {
    } else {
        lemma_scan_bounds(s, lo, j - 1);
    }
}

/// A run starts satisfying the pass invariant.
pub proof fn lemma_pass_inv_init(h: Seq<u64>)
    requires
        h.len() >= 2,
    ensures
        pass_inv(init_config(h)),
{
}

/// Every frame preserves the pass invariant.
pub proof fn lemma_pass_inv_step(c: Config)
    requires
        pass_inv(c),
    ensures
        pass_inv(step_config(c)),
{
    let n = c.h.len() as int;
    let m = c.m;
    if terminal_model(m, n) {
    } else if m.inner == n {
        // pass boundary: the next state is a pass start, where the candidate
        // fields are unconstrained
    } else if m.inner == m.outer + 1 {
        // first comparison of the pass: the candidate is seeded with the
        // element at the inner cursor
        assert(scan_shortest(c.h, m.outer + 1, m.outer + 1) == m.outer + 1);
    } else {
        // later comparison: the scan extends by one position
        let prev = scan_shortest(c.h, m.outer + 1, m.inner - 1);
        assert(scan_shortest(c.h, m.outer + 1, m.inner) == if c.h[m.inner] < c.h[prev] {
            m.inner
        } else {
            prev
        });
    }
}

/// Swap correctness: applying an emitted swap instruction is a pure exchange
/// of two heights — the multiset of heights is preserved. (That the two
/// affected identities are the pre-increment outer cursor and the shortest
/// candidate is part of `advance`'s contract, via `expected_swap`.)
pub proof fn lemma_swap_preserves_heights(c: Config)
    requires
        pass_inv(c),
        emits_swap(c.m, c.h.len() as int),
    ensures
        step_config(c).h.to_multiset() == c.h.to_multiset(),
{
    broadcast use vstd::multiset::group_multiset_axioms;
    broadcast use vstd::seq_lib::group_to_multiset_ensures;

    let n = c.h.len() as int;
    let s = c.h;
    let o = c.m.outer;
    let j = c.m.shortest_id;
    let v = c.m.shortest_height;
    lemma_scan_bounds(s, o + 1, c.m.inner - 1);
    assert(o + 1 <= j <= n - 1 && v == s[j]);
    let s1 = s.update(o, v);
    vstd::seq_lib::to_multiset_update(s, o, v);
    vstd::seq_lib::to_multiset_update(s1, j, s[o]);
    assert(s.contains(s[o]));
    assert(s1.update(j, s[o]).to_multiset() =~= s.to_multiset());
}

proof fn lemma_iter_add(c: Config, a: nat, b: nat)
    ensures
        iter_config(c, a + b) == iter_config(iter_config(c, a), b),
    decreases a,
{
    if a == 0 {
    } else {
        lemma_iter_add(step_config(c), (a - 1) as nat, b);
        assert(iter_config(c, a + b) == iter_config(step_config(c), (a + b - 1) as nat));
    }
}

/// The cursor state right after the pass at `o` completes.
pub open spec fn post_pass_model(s: Seq<u64>, o: int) -> SortModel {
    let mi = scan_shortest(s, o + 1, s.len() - 1);
    SortModel {
        outer: o + 1,
        inner: o + 2,
        shortest_id: mi,
        shortest_height: s[mi],
        outer_height: s[o],
    }
}

proof fn lemma_scan_frames(c: Config)
    requires
        pass_inv(c),
        !terminal_model(c.m, c.h.len() as int),
        c.m.outer + 1 < c.m.inner <= c.h.len(),
    ensures
        iter_config(c, (c.h.len() - c.m.inner + 1) as nat) == (Config {
            m: post_pass_model(c.h, c.m.outer),
            h: pass_swap(c.h, c.m.outer),
        }),
    decreases c.h.len() - c.m.inner,
{
    let n = c.h.len() as int;
    let m = c.m;
    if m.inner == n {
        assert(iter_config(step_config(c), 0nat) == step_config(c));
        assert(iter_config(c, 1nat) == iter_config(step_config(c), 0nat));
        assert(step_config(c) == (Config {
            m: post_pass_model(c.h, m.outer),
            h: pass_swap(c.h, m.outer),
        }));
    } else {
        lemma_pass_inv_step(c);
        let c2 = step_config(c);
        lemma_scan_frames(c2);
        assert(iter_config(c, (n - m.inner + 1) as nat) == iter_config(
            c2,
            (n - m.inner) as nat,
        ));
    }
}

proof fn lemma_pass_frames(c: Config)
    requires
        pass_inv(c),
        !terminal_model(c.m, c.h.len() as int),
        c.m.inner == c.m.outer + 1,
    ensures
        iter_config(c, (c.h.len() - c.m.outer) as nat) == (Config {
            m: post_pass_model(c.h, c.m.outer),
            h: pass_swap(c.h, c.m.outer),
        }),
{
    let n = c.h.len() as int;
    let m = c.m;
    lemma_pass_inv_step(c);
    let c2 = step_config(c);
    lemma_scan_frames(c2);
    assert(iter_config(c, (n - m.outer) as nat) == iter_config(c2, (n - m.outer - 1) as nat));
}

proof fn lemma_run_frames(c: Config)
    requires
        pass_inv(c),
        c.m.inner == c.m.outer + 1 || terminal_model(c.m, c.h.len() as int),
    ensures
        iter_config(c, steps_remaining(c.m, c.h.len() as int) as nat).h == run_from(
            c.h,
            c.m.outer,
        ),
        terminal_model(
            iter_config(c, steps_remaining(c.m, c.h.len() as int) as nat).m,
            c.h.len() as int,
        ),
    decreases c.h.len() - 1 - c.m.outer,
{
    let n = c.h.len() as int;
    let m = c.m;
    if terminal_model(m, n) {
        lemma_terminal_iff_no_steps(m, n);
    } else {
        lemma_pass_frames(c);
        let cp = Config { m: post_pass_model(c.h, m.outer), h: pass_swap(c.h, m.outer) };
        lemma_scan_bounds(c.h, m.outer + 1, n - 1);
        assert(cp.h.len() == n);
        assert(pass_inv(cp));
        let k = (n - 1 - m.outer) as nat;
        assert(tri(k) == k + tri((k - 1) as nat));
        assert(steps_remaining(m, n) == (n - m.outer) + steps_remaining(cp.m, n));
        lemma_iter_add(c, (n - m.outer) as nat, steps_remaining(cp.m, n) as nat);
        lemma_run_frames(cp);
    }
}

/// The positions before `o` already hold their final, sorted heights: they
/// are mutually ordered and no later position holds anything smaller.
spec fn prefix_sorted(s: Seq<u64>, o: int) -> bool {
    forall|i: int, j: int| 0 <= i <= j < s.len() && i < o ==> s[i] <= s[j]
}

proof fn lemma_pass_preserves_prefix(s: Seq<u64>, o: int)
    requires
        s.len() >= 2,
        0 <= o < s.len() - 1,
        prefix_sorted(s, o),
        s[scan_shortest(s, o + 1, s.len() - 1)] <= s[o],
    ensures
        prefix_sorted(pass_swap(s, o), o + 1),
{
    let n = s.len() as int;
    let mi = scan_shortest(s, o + 1, n - 1);
    lemma_scan_bounds(s, o + 1, n - 1);
    let t = pass_swap(s, o);
    assert forall|i: int, j: int| 0 <= i <= j < n && i < o + 1 implies t[i] <= t[j] by {
        if i < o {
            assert(t[i] == s[i]);
            assert(s[i] <= s[j] && s[i] <= s[mi] && s[i] <= s[o]);
        } else {
            assert(t[i] == s[mi]);
        }
    }
}

proof fn lemma_run_sorted(s: Seq<u64>, o: int)
    requires
        s.len() >= 2,
        0 <= o <= s.len() - 1,
        prefix_sorted(s, o),
        run_ok(s, o),
    ensures
        is_sorted(run_from(s, o)),
    decreases s.len() - 1 - o,
{
    let n = s.len() as int;
    if o >= n - 1 {
        assert forall|i: int, j: int| 0 <= i <= j < n implies s[i] <= s[j] by {
            if i < n - 1 {
            }
        }
    } else {
        lemma_pass_swap_len(s, o);
        lemma_pass_preserves_prefix(s, o);
        lemma_run_sorted(pass_swap(s, o), o + 1);
    }
}

/// Sortedness: for precisely the initial height sequences satisfying
/// `run_ok` — at every pass, the pass-start height is at least the shortest
/// height among the later positions — running the automaton for its full
/// step count leaves the heights non-decreasing in identity order.
///
/// `run_ok` cannot be dropped: the scan of a pass starts at `outer + 1` and
/// never compares the pass-start element itself, so a pass whose start
/// already holds the strictly smallest remaining height moves that height
/// away from the front, and no later pass returns to fix it.
pub proof fn lemma_sortedness(h: Seq<u64>)
    requires
        h.len() >= 2,
        run_ok(h, 0),
    ensures
        is_sorted(iter_config(init_config(h), total_steps(h.len() as int) as nat).h),
{
    lemma_pass_inv_init(h);
    lemma_run_frames(init_config(h));
    lemma_run_sorted(h, 0);
    lemma_step_count(h);
}

proof fn lemma_run_from_len(s: Seq<u64>, o: int)
    ensures
        run_from(s, o).len() == s.len(),
    decreases s.len() - 1 - o,
{
    if 0 <= o < s.len() - 1 {
        lemma_pass_swap_len(s, o);
        lemma_run_from_len(pass_swap(s, o), o + 1);
    }
}

/// Passes from `p` on never touch a position before `p`.
proof fn lemma_run_from_preserves_prefix(s: Seq<u64>, p: int, i: int)
    requires
        0 <= i < p,
    ensures
        run_from(s, p)[i] == s[i],
    decreases s.len() - 1 - p,
{
    if 0 <= p < s.len() - 1 {
        lemma_scan_bounds(s, p + 1, s.len() - 1);
        lemma_pass_swap_len(s, p);
        assert(pass_swap(s, p)[i] == s[i]);
        lemma_run_from_preserves_prefix(pass_swap(s, p), p + 1, i);
    }
}

/// A height at most `v` somewhere at or after `p` stays at or after `p`:
/// every pass from `p` on permutes heights within those positions.
proof fn lemma_run_from_keeps_small(s: Seq<u64>, p: int, v: u64)
    requires
        0 <= p <= s.len(),
        exists|j: int| p <= j < s.len() && s[j] <= v,
    ensures
        exists|j: int| p <= j < s.len() && run_from(s, p)[j] <= v,
    decreases s.len() - 1 - p,
{
    lemma_run_from_len(s, p);
    if p >= s.len() - 1 {
    } else {
        let n = s.len() as int;
        let jw = choose|j: int| p <= j < n && s[j] <= v;
        let mi = scan_shortest(s, p + 1, n - 1);
        lemma_scan_bounds(s, p + 1, n - 1);
        lemma_pass_swap_len(s, p);
        let t = pass_swap(s, p);
        if jw == p {
            // the swap moves the small height to position `mi`, past `p`
            assert(t[mi] == s[p] <= v);
            lemma_run_from_keeps_small(t, p + 1, v);
        } else if jw == mi {
            // the swap moves the small height to position `p`, which the
            // remaining passes never touch again
            assert(t[p] == s[mi] <= v);
            lemma_run_from_preserves_prefix(t, p + 1, p);
            assert(run_from(s, p)[p] <= v);
        } else {
            assert(t[jw] == s[jw] <= v);
            lemma_run_from_keeps_small(t, p + 1, v);
        }
    }
}

proof fn lemma_run_unsorted(s: Seq<u64>, o: int)
    requires
        s.len() >= 2,
        0 <= o <= s.len() - 1,
        !run_ok(s, o),
    ensures
        !is_sorted(run_from(s, o)),
    decreases s.len() - 1 - o,
{
    let n = s.len() as int;
    let mi = scan_shortest(s, o + 1, n - 1);
    lemma_scan_bounds(s, o + 1, n - 1);
    lemma_pass_swap_len(s, o);
    let t = pass_swap(s, o);
    let f = run_from(s, o);
    if s[mi] <= s[o] {
        // this pass behaves; a later one must be the culprit
        lemma_run_unsorted(t, o + 1);
    } else {
        // the pass start holds the strictly smallest remaining height and
        // the swap trades it away, beyond repair
        lemma_run_from_len(t, o + 1);
        lemma_run_from_preserves_prefix(t, o + 1, o);
        assert(f[o] == t[o] == s[mi]);
        assert(t[mi] == s[o] && o + 1 <= mi < n);
        lemma_run_from_keeps_small(t, o + 1, s[o]);
        let j = choose|j: int| o + 1 <= j < n && #[trigger] run_from(t, o + 1)[j] <= s[o];
        if is_sorted(f) {
            assert(f[o] <= f[j]);
            assert(false);
        }
    }
}

/// Completeness of `run_ok`: on any initial heights it rejects, the run ends
/// unsorted. Together with `lemma_sortedness` this draws the exact line
/// between the height sequences this automaton sorts and those it does not.
pub proof fn lemma_unsorted_without_run_ok(h: Seq<u64>)
    requires
        h.len() >= 2,
        !run_ok(h, 0),
    ensures
        !is_sorted(iter_config(init_config(h), total_steps(h.len() as int) as nat).h),
{
    lemma_pass_inv_init(h);
    lemma_run_frames(init_config(h));
    lemma_step_count(h);
    lemma_run_unsorted(h, 0);
}

} // verus!
