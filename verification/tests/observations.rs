use evm_fork_cache::cache::slot_observations::{
    RefetchDecision, RefetchLimits, SlotObservation, SlotObservationTracker,
};
use evm_fork_cache::primitives::{Address, SlotKey, U256};

struct Params {
    limits: RefetchLimits,
    always_refetch_rate: f64,
    staleness_threshold: f64,
}

fn params() -> Params {
    Params {
        limits: RefetchLimits { min_observations: 3, max_reuse: 300, cycle_interval: 1 },
        always_refetch_rate: 0.8,
        staleness_threshold: 0.05,
    }
}

fn refetches(tracker: &SlotObservationTracker, a: Address, slot: U256, now: u64, p: &Params) -> bool {
    match tracker.should_refetch(a, slot, now, &p.limits) {
        RefetchDecision::Refetch => true,
        RefetchDecision::Reuse => false,
        RefetchDecision::Estimate { change_count, observation_count, elapsed, cycle_interval } => {
            let change_rate = change_count as f64 / observation_count as f64;
            if change_rate > p.always_refetch_rate {
                return true;
            }
            let cycles_elapsed = (elapsed as f64 / cycle_interval as f64).max(1.0);
            change_rate * cycles_elapsed > p.staleness_threshold
        }
    }
}

fn addr(n: u8) -> Address {
    Address::from_bytes(&[n; 20])
}

fn word(n: u64) -> U256 {
    U256::from_u64(n)
}

#[test]
fn test_unknown_slot_always_refetches() {
    let tracker = SlotObservationTracker::new();
    assert!(refetches(&tracker, addr(1), word(0), 100, &params()));
}

#[test]
fn test_insufficient_observations_refetches() {
    let mut tracker = SlotObservationTracker::new();
    let p = params();
    let a = addr(1);
    let slot = word(4);
    for now in 0..(p.limits.min_observations - 1) {
        tracker.observe(a, slot, word(42), now as u64);
    }
    assert!(refetches(&tracker, a, slot, p.limits.min_observations as u64, &p));
}

#[test]
fn test_never_changed_slot_skips_refetch() {
    let mut tracker = SlotObservationTracker::new();
    let p = params();
    let a = addr(1);
    let slot = word(4);
    let value = word(42);
    for now in 0..p.limits.min_observations {
        tracker.observe(a, slot, value, now as u64);
    }
    assert!(!refetches(&tracker, a, slot, p.limits.min_observations as u64 - 1, &p));
}

#[test]
fn test_never_changed_slot_refetches_past_max_reuse() {
    let mut tracker = SlotObservationTracker::new();
    let p = params();
    let a = addr(1);
    let slot = word(4);
    for now in 0..p.limits.min_observations {
        tracker.observe(a, slot, word(42), now as u64);
    }
    let now = p.limits.min_observations as u64 + p.limits.max_reuse + 1;
    assert!(refetches(&tracker, a, slot, now, &p));
}

#[test]
fn test_always_changing_slot_refetches() {
    let mut tracker = SlotObservationTracker::new();
    let p = params();
    let a = addr(1);
    let slot = word(4);
    for now in 0..(p.limits.min_observations + 1) {
        tracker.observe(a, slot, word(now as u64), now as u64);
    }
    assert!(refetches(&tracker, a, slot, p.limits.min_observations as u64 + 1, &p));
}

#[test]
fn test_observe_returns_changed() {
    let mut tracker = SlotObservationTracker::new();
    let a = addr(1);
    let slot = word(0);
    assert!(!tracker.observe(a, slot, word(1), 0)); // first = baseline
    assert!(!tracker.observe(a, slot, word(1), 1)); // same
    assert!(tracker.observe(a, slot, word(2), 2)); // changed
    assert!(!tracker.observe(a, slot, word(2), 3)); // same again
}

#[test]
fn test_observe_records_change_clock() {
    let mut tracker = SlotObservationTracker::new();
    let a = addr(1);
    let slot = word(0);
    tracker.observe(a, slot, word(1), 10); // baseline at tick 10
    tracker.observe(a, slot, word(2), 25); // change at tick 25
    let key = SlotKey { address: a, slot };
    let obs = tracker.observations.get(&key).unwrap();
    assert_eq!(obs.last_checked, 25);
    assert_eq!(obs.last_changed, 25);
    assert_eq!(obs.change_count, 1);
    assert_eq!(obs.observation_count, 2);
}

#[test]
fn test_reset_contract_clears_observations() {
    let mut tracker = SlotObservationTracker::new();
    let p = params();
    let a = addr(1);
    for i in 0..p.limits.min_observations {
        tracker.observe(a, word(i as u64), word(42), i as u64);
    }
    assert!(!tracker.is_empty());
    tracker.reset_contract(a);
    assert_eq!(tracker.len(), 0);
    // After reset, the slot is fetched again.
    assert!(refetches(&tracker, a, word(0), 100, &p));
}

#[test]
fn reset_leaves_other_contracts() {
    let mut tracker = SlotObservationTracker::new();
    tracker.observe(addr(1), word(0), word(42), 0);
    tracker.observe(addr(2), word(0), word(43), 0);
    tracker.reset_contract(addr(1));
    assert_eq!(tracker.len(), 1);
    assert_eq!(tracker.last_value(addr(2), word(0)), Some(word(43)));
    assert!(tracker.dirty);
    tracker.mark_saved();
    assert!(!tracker.dirty);
}

#[test]
fn test_skipped_slots_tracking() {
    let mut tracker = SlotObservationTracker::new();
    tracker.begin_cycle();
    tracker.record_skip(addr(1), word(0));
    tracker.record_skip(addr(1), word(4));
    tracker.record_skip(addr(2), word(8));

    let skipped = tracker.take_skipped();
    assert_eq!(skipped.len(), 3);
    // After take, list is empty
    assert!(tracker.take_skipped().is_empty());
}

#[test]
fn test_begin_cycle_clears_skipped() {
    let mut tracker = SlotObservationTracker::new();
    tracker.record_skip(addr(1), word(0));
    tracker.begin_cycle();
    assert!(tracker.take_skipped().is_empty());
}

#[test]
fn test_last_value() {
    let mut tracker = SlotObservationTracker::new();
    let a = addr(1);
    assert_eq!(tracker.last_value(a, word(0)), None);
    tracker.observe(a, word(0), word(42), 0);
    assert_eq!(tracker.last_value(a, word(0)), Some(word(42)));
    tracker.observe(a, word(0), word(99), 1);
    assert_eq!(tracker.last_value(a, word(0)), Some(word(99)));
}

fn seed_obs(
    tracker: &mut SlotObservationTracker,
    a: Address,
    slot: U256,
    observation_count: u32,
    change_count: u32,
    last_checked: u64,
) {
    tracker.observations.insert(
        SlotKey { address: a, slot },
        SlotObservation {
            last_value: word(1),
            observation_count,
            change_count,
            last_checked,
            last_changed: last_checked,
        },
    );
}

#[test]
fn test_probabilistic_refetches_at_now_equals_last_checked() {
    let mut tracker = SlotObservationTracker::new();
    let p = params();
    let a = addr(1);
    let slot = word(7);
    seed_obs(&mut tracker, a, slot, 20, 3, 100);
    assert!((3.0_f64 / 20.0) < p.always_refetch_rate);
    assert!(refetches(&tracker, a, slot, 100, &p));
}

#[test]
fn test_probabilistic_reuses_then_refetches_after_elapsed() {
    let mut tracker = SlotObservationTracker::new();
    let p = params();
    let a = addr(1);
    let slot = word(7);
    seed_obs(&mut tracker, a, slot, 100, 1, 100);

    assert!(!refetches(&tracker, a, slot, 100, &p));
    assert!(!refetches(&tracker, a, slot, 104, &p));
    assert!(refetches(&tracker, a, slot, 110, &p));
}

#[test]
fn test_probabilistic_cycle_interval_scaling() {
    let mut tracker = SlotObservationTracker::new();
    let mut p = params();
    p.limits.cycle_interval = 10;
    let a = addr(1);
    let slot = word(7);
    seed_obs(&mut tracker, a, slot, 100, 1, 100);

    assert!(refetches(&tracker, a, slot, 160, &p));
    assert!(!refetches(&tracker, a, slot, 140, &p));
    let unit = params();
    assert!(
        refetches(&tracker, a, slot, 140, &unit),
        "with cycle_interval = 1 the same elapsed gap refetches"
    );
}

#[test]
fn a_cycle_is_at_least_one_long() {
    let mut tracker = SlotObservationTracker::new();
    seed_obs(&mut tracker, addr(1), word(7), 100, 1, 100);
    let limits = RefetchLimits { min_observations: 3, max_reuse: 300, cycle_interval: 0 };
    assert_eq!(
        tracker.should_refetch(addr(1), word(7), 110, &limits),
        RefetchDecision::Estimate {
            change_count: 1,
            observation_count: 100,
            elapsed: 10,
            cycle_interval: 1
        }
    );
}
