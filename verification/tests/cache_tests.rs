use pageview::cache::{Cache, CurrentAction, EntryState};

fn states(cache: &Cache) -> Vec<EntryState> {
    cache.entries.clone()
}

#[test]
fn first_reconcile_realizes_current_and_spawns_neighbours() {
    let mut cache = Cache::new(10);
    let plan = cache.reconcile(5);
    assert_eq!(plan.current_action, CurrentAction::DecodeSync);
    assert!(plan.evict.is_empty());
    assert!(plan.join_discard.is_empty());
    assert_eq!(plan.spawn, vec![3, 4, 6, 7]);
    let s = states(&cache);
    for (i, st) in s.iter().enumerate() {
        if i == 5 {
            assert_eq!(*st, EntryState::Realized);
        } else if (3..=7).contains(&i) {
            assert_eq!(*st, EntryState::Pending);
        } else {
            assert_eq!(*st, EntryState::Absent);
        }
    }
}

#[test]
fn window_clamps_at_sequence_ends() {
    let mut cache = Cache::new(3);
    let plan = cache.reconcile(0);
    assert_eq!(plan.spawn, vec![1, 2]);
    let s = states(&cache);
    assert_eq!(s[0], EntryState::Realized);
    assert_eq!(s[1], EntryState::Pending);
    assert_eq!(s[2], EntryState::Pending);
}

#[test]
fn repeated_reconcile_is_idempotent() {
    let mut cache = Cache::new(10);
    cache.reconcile(5);
    let before = states(&cache);
    let plan = cache.reconcile(5);
    assert_eq!(plan.current_action, CurrentAction::AlreadyRealized);
    assert!(plan.evict.is_empty());
    assert!(plan.join_discard.is_empty());
    assert!(plan.spawn.is_empty());
    assert_eq!(states(&cache), before);
}

#[test]
fn pending_neighbour_gets_no_second_worker() {
    let mut cache = Cache::new(10);
    cache.reconcile(5);
    // index 6 and 7 are pending; moving to 6 must only spawn the new
    // neighbour 8, claim the pending worker for 6, and join index 3
    let plan = cache.reconcile(6);
    assert_eq!(plan.current_action, CurrentAction::ClaimPending);
    assert_eq!(plan.spawn, vec![8]);
    assert!(plan.evict.is_empty());
    assert_eq!(plan.join_discard, vec![3]);
    let s = states(&cache);
    assert_eq!(s[3], EntryState::Absent);
    assert_eq!(s[4], EntryState::Pending);
    assert_eq!(s[5], EntryState::Realized);
    assert_eq!(s[6], EntryState::Realized);
    assert_eq!(s[7], EntryState::Pending);
    assert_eq!(s[8], EntryState::Pending);
}

#[test]
fn leaving_the_window_evicts_and_joins() {
    let mut cache = Cache::new(10);
    cache.reconcile(5);
    // jump far away: the realized entry is evicted, the pending ones joined
    let plan = cache.reconcile(0);
    assert_eq!(plan.evict, vec![5]);
    assert_eq!(plan.join_discard, vec![3, 4, 6, 7]);
    assert_eq!(plan.spawn, vec![1, 2]);
    assert_eq!(plan.current_action, CurrentAction::DecodeSync);
    let s = states(&cache);
    for (i, st) in s.iter().enumerate() {
        if i == 0 {
            assert_eq!(*st, EntryState::Realized);
        } else if i <= 2 {
            assert_eq!(*st, EntryState::Pending);
        } else {
            assert_eq!(*st, EntryState::Absent);
        }
    }
}

#[test]
fn window_invariant_holds_after_every_step() {
    let mut cache = Cache::new(7);
    for current in [3usize, 4, 5, 6, 0, 2] {
        cache.reconcile(current);
        let s = states(&cache);
        for (i, st) in s.iter().enumerate() {
            let lo = current.saturating_sub(2);
            let hi = (current + 2).min(s.len() - 1);
            let inside = i >= lo && i <= hi;
            let occupied = *st != EntryState::Absent;
            assert_eq!(inside, occupied);
        }
        assert_eq!(s[current], EntryState::Realized);
    }
}
