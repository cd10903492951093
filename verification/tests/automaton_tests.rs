use pillar_sort::automaton::Role;
use pillar_sort::automaton::Role::Inner;
use pillar_sort::automaton::Role::Outer;
use pillar_sort::automaton::Role::Shortest;
use pillar_sort::automaton::Role::Unmarked;
use pillar_sort::automaton::SortState;
use pillar_sort::automaton::StepResult;
use pillar_sort::store::ElementStore;

/// One frame as the host drives it: advance, then apply the emitted swap.
fn frame(state: &mut SortState, store: &mut ElementStore) -> StepResult {
    let result = state.advance(store);
    if let Some(sw) = &result.swap {
        assert!(sw.a_id < store.len() && sw.b_id < store.len());
        store.apply_swap(sw);
    }
    result
}

fn heights_of(store: &ElementStore) -> Vec<u64> {
    store.elements().iter().map(|e| e.height).collect()
}

fn run_to_completion(heights: Vec<u64>) -> (Vec<u64>, u64) {
    let mut store = ElementStore::new(heights).unwrap();
    let mut state = SortState::new(&store);
    let mut frames: u64 = 0;
    loop {
        let result = frame(&mut state, &mut store);
        frames += 1;
        if result.completed {
            return (heights_of(&store), frames);
        }
        assert!(frames < 1_000_000, "no completion signal");
    }
}

#[test]
fn scenario_four_pillars_full_trace() {
    // Heights by id: [3, 1, 4, 1]; ties resolved by the first-candidate seed
    // rule, so the earlier 1 (id 1) wins pass 0.
    let mut store = ElementStore::new(vec![3, 1, 4, 1]).unwrap();
    let mut state = SortState::new(&store);

    // Pass 0: seed with id 1, compare ids 2 and 3, then swap ids 0 and 1.
    let r1 = frame(&mut state, &mut store);
    assert_eq!(r1.roles, vec![Outer, Inner, Unmarked, Unmarked]);
    assert!(r1.swap.is_none() && !r1.completed);
    assert_eq!((state.shortest_id(), state.shortest_height()), (1, 1));

    let r2 = frame(&mut state, &mut store);
    assert_eq!(r2.roles, vec![Outer, Shortest, Inner, Unmarked]);
    assert!(r2.swap.is_none() && !r2.completed);

    let r3 = frame(&mut state, &mut store);
    assert_eq!(r3.roles, vec![Outer, Shortest, Unmarked, Inner]);
    assert!(r3.swap.is_none() && !r3.completed);
    // the tied height at id 3 does not displace the first-seen minimum
    assert_eq!((state.shortest_id(), state.shortest_height()), (1, 1));

    let r4 = frame(&mut state, &mut store);
    assert_eq!(r4.roles, vec![Outer, Shortest, Unmarked, Unmarked]);
    let sw = r4.swap.expect("pass boundary emits a swap");
    assert_eq!((sw.a_id, sw.b_id, sw.a_new_height, sw.b_new_height), (0, 1, 1, 3));
    assert!(!r4.completed);
    assert_eq!(heights_of(&store), vec![1, 3, 4, 1]);

    // Pass 1: seed with id 2, id 3 displaces it, then swap ids 1 and 3.
    let r5 = frame(&mut state, &mut store);
    assert_eq!(r5.roles, vec![Unmarked, Outer, Inner, Unmarked]);
    assert_eq!((state.shortest_id(), state.shortest_height()), (2, 4));

    let r6 = frame(&mut state, &mut store);
    assert_eq!(r6.roles, vec![Unmarked, Outer, Unmarked, Inner]);
    assert_eq!((state.shortest_id(), state.shortest_height()), (3, 1));

    let r7 = frame(&mut state, &mut store);
    assert_eq!(r7.roles, vec![Unmarked, Outer, Unmarked, Shortest]);
    let sw = r7.swap.expect("pass boundary emits a swap");
    assert_eq!((sw.a_id, sw.b_id, sw.a_new_height, sw.b_new_height), (1, 3, 1, 3));
    assert!(!r7.completed);
    assert_eq!(heights_of(&store), vec![1, 1, 4, 3]);

    // Pass 2: seed with id 3, then swap ids 2 and 3; completion fires here.
    let r8 = frame(&mut state, &mut store);
    assert_eq!(r8.roles, vec![Unmarked, Unmarked, Outer, Inner]);
    assert_eq!((state.shortest_id(), state.shortest_height()), (3, 3));

    let r9 = frame(&mut state, &mut store);
    assert_eq!(r9.roles, vec![Unmarked, Unmarked, Outer, Shortest]);
    let sw = r9.swap.expect("pass boundary emits a swap");
    assert_eq!((sw.a_id, sw.b_id, sw.a_new_height, sw.b_new_height), (2, 3, 3, 4));
    assert!(r9.completed, "completion fires on the frame the outer cursor reaches the last id");
    assert_eq!(heights_of(&store), vec![1, 1, 3, 4]);
    assert_eq!(state.outer(), 3);
}

#[test]
fn step_count_matches_closed_form() {
    // total frames = n * (n - 1) / 2 + (n - 1)
    let (_, frames4) = run_to_completion(vec![3, 1, 4, 1]);
    assert_eq!(frames4, 4 * 3 / 2 + 3);
    let (_, frames5) = run_to_completion(vec![9, 7, 5, 3, 1]);
    assert_eq!(frames5, 5 * 4 / 2 + 4);
    let (_, frames2) = run_to_completion(vec![2, 1]);
    assert_eq!(frames2, 2 * 1 / 2 + 1);
}

#[test]
fn completion_signal_fires_exactly_once() {
    let mut store = ElementStore::new(vec![5, 4, 3, 2]).unwrap();
    let mut state = SortState::new(&store);
    let mut completions = 0;
    for _ in 0..40 {
        let result = frame(&mut state, &mut store);
        if result.completed {
            completions += 1;
        }
    }
    assert_eq!(completions, 1);
}

#[test]
fn terminal_state_is_idempotent() {
    let mut store = ElementStore::new(vec![4, 2, 3, 1]).unwrap();
    let mut state = SortState::new(&store);
    loop {
        if frame(&mut state, &mut store).completed {
            break;
        }
    }
    let heights = heights_of(&store);
    let outer = state.outer();
    let terminal_roles = state.advance(&store).roles;
    for _ in 0..10 {
        let result = state.advance(&store);
        assert!(result.swap.is_none());
        assert!(!result.completed);
        assert_eq!(result.roles, terminal_roles);
    }
    assert_eq!(state.outer(), outer);
    assert_eq!(heights_of(&store), heights);
}

#[test]
fn swaps_preserve_the_multiset_of_heights() {
    let input = vec![6, 2, 9, 2, 7, 1];
    let (mut result, _) = run_to_completion(input.clone());
    let mut expected = input;
    expected.sort();
    result.sort();
    assert_eq!(result, expected);
}

#[test]
fn sorts_when_no_pass_starts_on_the_strict_minimum() {
    // The largest height leads, so every pass start holds a height no
    // smaller than the shortest among the positions it scans.
    let (result, _) = run_to_completion(vec![5, 1, 2, 3, 4]);
    assert_eq!(result, vec![1, 2, 3, 4, 5]);
    let (result, _) = run_to_completion(vec![3, 1, 4, 1]);
    assert_eq!(result, vec![1, 1, 3, 4]);
    let (result, _) = run_to_completion(vec![5, 5, 5]);
    assert_eq!(result, vec![5, 5, 5]);
}

#[test]
fn pass_start_holding_the_strict_minimum_moves_it_away() {
    // The pass scan starts one past the pass start, so a pass whose start
    // already holds the strictly smallest remaining height trades it away:
    // [1, 3, 2] ends as [2, 1, 3], not sorted.
    let (result, frames) = run_to_completion(vec![1, 3, 2]);
    assert_eq!(result, vec![2, 1, 3]);
    assert_eq!(frames, 3 * 2 / 2 + 2);
}

#[test]
fn roles_are_exclusive_on_every_frame() {
    let mut store = ElementStore::new(vec![4, 1, 3, 5, 2]).unwrap();
    let mut state = SortState::new(&store);
    let mut done = false;
    for _ in 0..20 {
        let result = frame(&mut state, &mut store);
        let outers = result.roles.iter().filter(|r| **r == Role::Outer).count();
        let inners = result.roles.iter().filter(|r| **r == Role::Inner).count();
        let shortests = result.roles.iter().filter(|r| **r == Role::Shortest).count();
        assert_eq!(outers, 1);
        assert!(inners <= 1);
        assert!(shortests <= 1);
        if !done && result.swap.is_none() {
            assert_eq!(inners, 1, "a comparison frame marks exactly one Inner");
        }
        if result.completed {
            done = true;
        }
    }
}
