//! How often slots change, and which are to be fetched again.

use crate::cache::layers::lookup;
use crate::cache::payload::{
    address_in, lemma_address_comes_back, lemma_word_comes_back, read_address, read_word,
    word_bytes, word_in,
};
use crate::cache::versioned;
use crate::cache::versioned::{contents, frame, unframed, version_bytes};
use crate::collections::{in_order, lemma_in_order_lists, lemma_take_extend, Duplicate, SortedMap};
use crate::foreign::{
    decode_observations, encode_observations, observation_rows, observations_in,
    observations_payload, ObservationBytes, ObservationRow,
};
use crate::primitives::{be_bytes, Address, SlotKey, U256};
use vstd::prelude::*;

verus! {

/// The kind of an observations file.
pub const SLOT_OBSERVATIONS_MAGIC: [u8; 8] = [0x45, 0x46, 0x43, 0x2d, 0x53, 0x4f, 0x42, 0x53];

/// The version of an observations file.
pub const SLOT_OBSERVATIONS_VERSION: u32 = 1;

/// What was observed of a slot.
#[derive(Clone, Copy, Debug, PartialEq, Eq, Structural)]
pub struct SlotObservation {
    /// The value last observed.
    pub last_value: U256,
    /// How often it was observed.
    pub observation_count: u32,
    /// How many observations differed from the one before.
    pub change_count: u32,
    /// When it was last observed.
    pub last_checked: u64,
    /// When it last changed.
    pub last_changed: u64,
}

impl Duplicate for SlotObservation {
    open spec fn same(&self, other: &Self) -> bool {
        *self == *other
    }

    fn duplicate(&self) -> (r: Self) {
        *self
    }
}

impl SlotObservation {
    /// The first observation of a value; it is no change.
    pub open spec fn first(value: U256, now: u64) -> Self {
        SlotObservation {
            last_value: value,
            observation_count: 1,
            change_count: 0,
            last_checked: now,
            last_changed: 0,
        }
    }

    /// With one more observation.
    pub open spec fn observed(self, value: U256, now: u64) -> Self {
        SlotObservation {
            last_value: value,
            observation_count: (self.observation_count + 1) as u32,
            change_count: if self.last_value != value {
                (self.change_count + 1) as u32
            } else {
                self.change_count
            },
            last_checked: now,
            last_changed: if self.last_value != value {
                now
            } else {
                self.last_changed
            },
        }
    }

    /// Whether one more observation can be counted.
    pub open spec fn countable(self) -> bool {
        self.observation_count < u32::MAX && self.change_count < u32::MAX
    }
}

/// When slots are fetched again, as far as whole numbers tell.
#[derive(Clone, Copy, Debug, PartialEq, Eq, Structural)]
pub struct RefetchLimits {
    /// How many observations it takes to trust a slot.
    pub min_observations: u32,
    /// How long a slot is trusted at most.
    pub max_reuse: u64,
    /// How long a cycle is.
    pub cycle_interval: u64,
}

/// Whether a slot is to be fetched again.
#[derive(Clone, Copy, Debug, PartialEq, Eq, Structural)]
pub enum RefetchDecision {
    /// It is.
    Refetch,
    /// It is not.
    Reuse,
    /// That depends on how likely it changed.
    Estimate {
        /// How often it changed.
        change_count: u32,
        /// How often it was observed.
        observation_count: u32,
        /// How long ago it was observed.
        elapsed: u64,
        /// How long a cycle is, at least one.
        cycle_interval: u64,
    },
}

/// Whether a slot is to be fetched again: one that was never observed, too rarely
/// or too long ago is; one that never changed is not; for the others the rate of
/// change decides.
pub open spec fn refetch_decision(
    observation: Option<SlotObservation>,
    now: u64,
    limits: RefetchLimits,
) -> RefetchDecision {
    match observation {
        None => RefetchDecision::Refetch,
        Some(seen) => {
            let elapsed: u64 = if now > seen.last_checked {
                (now - seen.last_checked) as u64
            } else {
                0
            };
            if seen.observation_count < limits.min_observations || elapsed > limits.max_reuse {
                RefetchDecision::Refetch
            } else if seen.change_count == 0 {
                RefetchDecision::Reuse
            } else {
                RefetchDecision::Estimate {
                    change_count: seen.change_count,
                    observation_count: seen.observation_count,
                    elapsed,
                    cycle_interval: if limits.cycle_interval == 0 {
                        1
                    } else {
                        limits.cycle_interval
                    },
                }
            }
        },
    }
}

/// What was observed of slots.
pub struct SlotObservationTracker {
    /// What was observed of each slot.
    pub observations: SortedMap<SlotKey, SlotObservation>,
    /// Slots that were not fetched again in this cycle.
    pub skipped_this_cycle: Vec<(Address, U256)>,
    /// Whether there is anything to save.
    pub dirty: bool,
}

impl Default for SlotObservationTracker {
    fn default() -> (r: Self)
        ensures
            r.observations@ == Map::<SlotKey, SlotObservation>::empty(),
            r.skipped_this_cycle@ == Seq::<(Address, U256)>::empty(),
            !r.dirty,
    {
        SlotObservationTracker::new()
    }
}

impl SlotObservationTracker {
    /// Nothing was observed.
    pub fn new() -> (r: Self)
        ensures
            r.observations@ == Map::<SlotKey, SlotObservation>::empty(),
            r.skipped_this_cycle@ == Seq::<(Address, U256)>::empty(),
            !r.dirty,
    {
        SlotObservationTracker {
            observations: SortedMap::new(),
            skipped_this_cycle: Vec::new(),
            dirty: false,
        }
    }

    /// With observations that were saved.
    pub fn from_saved(observations: SortedMap<SlotKey, SlotObservation>) -> (r: Self)
        ensures
            r.observations@ == observations@,
            r.skipped_this_cycle@ == Seq::<(Address, U256)>::empty(),
            !r.dirty,
    {
        SlotObservationTracker { observations, skipped_this_cycle: Vec::new(), dirty: false }
    }

    /// The file to write, where there is anything to save. What it holds is read
    /// back from it.
    pub fn save(&self) -> (r: Result<Option<Vec<u8>>, String>)
        ensures
            match r {
                Ok(Some(file)) => self.dirty && is_observations_file(file@, self.observations@),
                Ok(None) => !self.dirty,
                Err(_) => false,
            },
    {
        if !self.dirty {
            return Ok(None);
        }
        let rows: Vec<ObservationBytes> = observation_bytes(&self.observations);
        match encode_observations(&rows) {
            Ok(payload) => {
                proof {
                    lemma_observations_are_read_back(self.observations@);
                    versioned::law_frame_round_trip(
                        SLOT_OBSERVATIONS_MAGIC@,
                        SLOT_OBSERVATIONS_VERSION,
                        payload@,
                    );
                }
                Ok(
                    Some(
                        versioned::encode(
                            &SLOT_OBSERVATIONS_MAGIC,
                            SLOT_OBSERVATIONS_VERSION,
                            payload.as_slice(),
                        ),
                    ),
                )
            },
            Err(details) => Err(details),
        }
    }

    /// Whether this is what a file gives: its observations, or none where it cannot
    /// be read.
    pub open spec fn is_from_file(self, data: Option<Seq<u8>>) -> bool {
        &&& self.observations@ == match loaded_observations(data) {
            Some(observations) => observations,
            None => Map::<SlotKey, SlotObservation>::empty(),
        }
        &&& self.skipped_this_cycle@ == Seq::<(Address, U256)>::empty()
        &&& !self.dirty
    }

    /// The observations of a file. A file that is not there or cannot be read counts
    /// as empty.
    pub fn load(data: Option<&[u8]>) -> (r: Self)
        ensures
            r.is_from_file(contents(data)),
    {
        let bytes: &[u8] = match data {
            Some(bytes) => bytes,
            None => {
                return SlotObservationTracker::new();
            },
        };
        let payload: Vec<u8> = match versioned::decode(
            bytes,
            &SLOT_OBSERVATIONS_MAGIC,
            SLOT_OBSERVATIONS_VERSION,
        ) {
            Some(payload) => payload,
            None => {
                return SlotObservationTracker::new();
            },
        };
        match decode_observations(payload.as_slice()) {
            Some(rows) => match read_observations(&rows) {
                Some(observations) => SlotObservationTracker::from_saved(observations),
                None => SlotObservationTracker::new(),
            },
            None => SlotObservationTracker::new(),
        }
    }

    /// Notes that all observations are saved.
    pub fn mark_saved(&mut self)
        ensures
            *final(self) == (SlotObservationTracker { dirty: false, ..*old(self) }),
    {
        self.dirty = false;
    }

    /// Whether a slot is to be fetched again.
    pub fn should_refetch(&self, addr: Address, slot: U256, now: u64, limits: &RefetchLimits) -> (r:
        RefetchDecision)
        ensures
            r == refetch_decision(
                lookup(self.observations@, SlotKey { address: addr, slot }),
                now,
                *limits,
            ),
    {
        let key: SlotKey = SlotKey { address: addr, slot };
        let seen: SlotObservation = match self.observations.get(&key) {
            Some(seen) => *seen,
            None => return RefetchDecision::Refetch,
        };
        if seen.observation_count < limits.min_observations {
            return RefetchDecision::Refetch;
        }
        let elapsed: u64 = if now > seen.last_checked {
            now - seen.last_checked
        } else {
            0
        };
        if elapsed > limits.max_reuse {
            return RefetchDecision::Refetch;
        }
        if seen.change_count == 0 {
            return RefetchDecision::Reuse;
        }
        RefetchDecision::Estimate {
            change_count: seen.change_count,
            observation_count: seen.observation_count,
            elapsed,
            cycle_interval: if limits.cycle_interval == 0 {
                1
            } else {
                limits.cycle_interval
            },
        }
    }

    /// Records an observation, and tells whether the value changed.
    pub fn observe(&mut self, addr: Address, slot: U256, value: U256, now: u64) -> (r: bool)
        requires
            lookup(old(self).observations@, (SlotKey { address: addr, slot })) matches Some(seen)
                ==> seen.countable(),
        ensures
            ({
                let key = SlotKey { address: addr, slot };
                let seen = lookup(old(self).observations@, key);
                &&& r == (seen is Some && seen->0.last_value != value)
                &&& final(self).observations@ == old(self).observations@.insert(
                    key,
                    match seen {
                        Some(seen) => seen.observed(value, now),
                        None => SlotObservation::first(value, now),
                    },
                )
            }),
            final(self).dirty,
            final(self).skipped_this_cycle == old(self).skipped_this_cycle,
    {
        let key: SlotKey = SlotKey { address: addr, slot };
        self.dirty = true;
        let seen: Option<SlotObservation> = match self.observations.get(&key) {
            Some(seen) => Some(*seen),
            None => None,
        };
        match seen {
            Some(seen) => {
                let changed: bool = seen.last_value != value;
                let next = SlotObservation {
                    last_value: value,
                    observation_count: seen.observation_count + 1,
                    change_count: if changed {
                        seen.change_count + 1
                    } else {
                        seen.change_count
                    },
                    last_checked: now,
                    last_changed: if changed {
                        now
                    } else {
                        seen.last_changed
                    },
                };
                self.observations.insert(key, next);
                changed
            },
            None => {
                self.observations.insert(
                    key,
                    SlotObservation {
                        last_value: value,
                        observation_count: 1,
                        change_count: 0,
                        last_checked: now,
                        last_changed: 0,
                    },
                );
                false
            },
        }
    }

    /// Notes that a slot was not fetched again in this cycle.
    pub fn record_skip(&mut self, addr: Address, slot: U256)
        ensures
            final(self).skipped_this_cycle@ == old(self).skipped_this_cycle@.push((addr, slot)),
            final(self).observations == old(self).observations,
            final(self).dirty == old(self).dirty,
    {
        self.skipped_this_cycle.push((addr, slot));
    }

    /// Takes the slots that were not fetched again in this cycle.
    pub fn take_skipped(&mut self) -> (r: Vec<(Address, U256)>)
        ensures
            r@ == old(self).skipped_this_cycle@,
            final(self).skipped_this_cycle@ == Seq::<(Address, U256)>::empty(),
            final(self).observations == old(self).observations,
            final(self).dirty == old(self).dirty,
    {
        let mut taken: Vec<(Address, U256)> = Vec::new();
        std::mem::swap(&mut taken, &mut self.skipped_this_cycle);
        taken
    }

    /// Forgets what was observed of a contract.
    pub fn reset_contract(&mut self, addr: Address)
        ensures
            final(self).observations@ == old(self).observations@.restrict(
                Set::new(|key: SlotKey| key.address != addr),
            ),
            final(self).dirty,
            final(self).skipped_this_cycle == old(self).skipped_this_cycle,
    {
        let mut kept: SortedMap<SlotKey, SlotObservation> = SortedMap::new();
        let n: usize = self.observations.len();
        let ghost all = self.observations@;
        let ghost order = self.observations.order();
        let ghost others = Set::new(|key: SlotKey| key.address != addr);
        let mut i: usize = 0;
        proof {
            assert(order.take(0).to_set() =~= Set::empty());
            assert(kept@ =~= all.restrict(others.intersect(order.take(0).to_set())));
        }
        while i < n
            invariant
                i <= n == order.len(),
                self.observations@ == all,
                self.observations.order() == order,
                order.to_set() == all.dom(),
                others == Set::new(|key: SlotKey| key.address != addr),
                kept@ == all.restrict(others.intersect(order.take(i as int).to_set())),
                self.skipped_this_cycle == old(self).skipped_this_cycle,
            decreases n - i,
        {
            let key: SlotKey = self.observations.key_at(i);
            let ghost before = kept@;
            proof {
                lemma_take_extend(order, i as int);
            }
            if key.address != addr {
                kept.insert(key, *self.observations.value_at(i));
            }
            proof {
                assert(kept@ =~= all.restrict(others.intersect(order.take(i + 1).to_set())));
            }
            i = i + 1;
        }
        proof {
            assert(order.take(i as int) =~= order);
            assert(kept@ =~= all.restrict(others));
        }
        self.observations = kept;
        self.dirty = true;
    }

    /// Begins a cycle.
    pub fn begin_cycle(&mut self)
        ensures
            final(self).skipped_this_cycle@ == Seq::<(Address, U256)>::empty(),
            final(self).observations == old(self).observations,
            final(self).dirty == old(self).dirty,
    {
        self.skipped_this_cycle = Vec::new();
    }

    /// The number of slots observed.
    pub fn len(&self) -> (r: usize)
        ensures
            r == self.observations@.len(),
    {
        self.observations.len()
    }

    /// Whether no slot was observed.
    pub fn is_empty(&self) -> (r: bool)
        ensures
            r == (self.observations@ == Map::<SlotKey, SlotObservation>::empty()),
    {
        self.observations.is_empty()
    }

    /// The value last observed.
    pub fn last_value(&self, addr: Address, slot: U256) -> (r: Option<U256>)
        ensures
            r == (match lookup(self.observations@, SlotKey { address: addr, slot }) {
                Some(seen) => Some(seen.last_value),
                None => None,
            }),
    {
        let key: SlotKey = SlotKey { address: addr, slot };
        match self.observations.get(&key) {
            Some(seen) => Some(seen.last_value),
            None => None,
        }
    }
}

/// A slot that was observed often enough and always held one value is not fetched
/// again while it is trusted, and is fetched again after that.
pub proof fn law_stable_slots_are_reused(
    seen: SlotObservation,
    now: u64,
    limits: RefetchLimits,
)
    requires
        seen.observation_count >= limits.min_observations,
        seen.change_count == 0,
    ensures
        now <= seen.last_checked + limits.max_reuse ==> refetch_decision(Some(seen), now, limits)
            == RefetchDecision::Reuse,
        now > seen.last_checked + limits.max_reuse ==> refetch_decision(Some(seen), now, limits)
            == RefetchDecision::Refetch,
{
}

/// Changes are observations: a slot never changed more often than it was
/// observed, the first observation aside.
pub proof fn law_changes_are_observations(seen: SlotObservation, value: U256, now: u64)
    requires
        seen.countable(),
        seen.change_count < seen.observation_count,
    ensures
        seen.observed(value, now).change_count < seen.observed(value, now).observation_count,
        SlotObservation::first(value, now).change_count < SlotObservation::first(
            value,
            now,
        ).observation_count,
{
}

/// An observation as it stands in a payload.
pub open spec fn observation_row(key: SlotKey, seen: SlotObservation) -> ObservationRow {
    (
        be_bytes(key.address@, 20),
        be_bytes(key.slot@, 32),
        be_bytes(seen.last_value@, 32),
        seen.observation_count,
        seen.change_count,
        seen.last_checked,
        seen.last_changed,
    )
}

/// Observations as they stand in a payload: in the order of the slots.
pub open spec fn listed_observations(observations: Map<SlotKey, SlotObservation>) -> Seq<
    ObservationRow,
> {
    in_order(observations.dom()).map_values(
        |key: SlotKey| observation_row(key, observations[key]),
    )
}

/// The observation that stands in a row, if its parts have the right lengths.
pub open spec fn observation_in(row: ObservationRow) -> Option<(SlotKey, SlotObservation)> {
    match (address_in(row.0), word_in(row.1), word_in(row.2)) {
        (Some(address), Some(slot), Some(last_value)) => Some(
            (
                SlotKey { address, slot },
                SlotObservation {
                    last_value,
                    observation_count: row.3,
                    change_count: row.4,
                    last_checked: row.5,
                    last_changed: row.6,
                },
            ),
        ),
        _ => None,
    }
}

/// The observations that stand in rows, later ones over earlier ones, if all of
/// them can be read.
pub open spec fn observations_of(rows: Seq<ObservationRow>) -> Option<Map<SlotKey, SlotObservation>>
    decreases rows.len(),
{
    if rows.len() == 0 {
        Some(Map::empty())
    } else {
        match (observations_of(rows.drop_last()), observation_in(rows.last())) {
            (Some(before), Some(entry)) => Some(before.insert(entry.0, entry.1)),
            _ => None,
        }
    }
}

/// The observations that a payload holds, if it holds any.
pub open spec fn decoded_observations(payload: Seq<u8>) -> Option<Map<SlotKey, SlotObservation>> {
    match observations_in(payload) {
        Some(rows) => observations_of(rows),
        None => None,
    }
}

/// The observations that a file holds, if it is there, of the right kind and
/// version, and its payload holds any.
pub open spec fn loaded_observations(data: Option<Seq<u8>>) -> Option<
    Map<SlotKey, SlotObservation>,
> {
    match data {
        Some(bytes) => match unframed(bytes, SLOT_OBSERVATIONS_MAGIC@, SLOT_OBSERVATIONS_VERSION) {
            Some(payload) => decoded_observations(payload),
            None => None,
        },
        None => None,
    }
}

/// Whether a file is that of observations: its bytes, and what is read back from
/// them.
pub open spec fn is_observations_file(
    file: Seq<u8>,
    observations: Map<SlotKey, SlotObservation>,
) -> bool {
    &&& file == frame(
        SLOT_OBSERVATIONS_MAGIC@,
        SLOT_OBSERVATIONS_VERSION,
        observations_payload(listed_observations(observations)),
    )
    &&& loaded_observations(Some(file)) == Some(observations)
}

/// Observations as they stand in a payload.
fn observation_bytes(observations: &SortedMap<SlotKey, SlotObservation>) -> (r: Vec<
    ObservationBytes,
>)
    ensures
        observation_rows(r@) == listed_observations(observations@),
        observations@.dom().finite(),
{
    let n: usize = observations.len();
    let ghost all = listed_observations(observations@);
    let mut rows: Vec<ObservationBytes> = Vec::new();
    let mut i: usize = 0;
    while i < n
        invariant
            i <= n == observations.order().len(),
            observations.order() == in_order(observations@.dom()),
            all == listed_observations(observations@),
            observation_rows(rows@) =~= all.take(i as int),
        decreases n - i,
    {
        let key: SlotKey = observations.key_at(i);
        let seen: &SlotObservation = observations.value_at(i);
        let ghost before = observation_rows(rows@);
        let row: ObservationBytes = (
            key.address.to_vec(),
            word_bytes(key.slot),
            word_bytes(seen.last_value),
            seen.observation_count,
            seen.change_count,
            seen.last_checked,
            seen.last_changed,
        );
        let ghost made = (row.0@, row.1@, row.2@, row.3, row.4, row.5, row.6);
        assert(made == all[i as int]);
        rows.push(row);
        assert(observation_rows(rows@) =~= before.push(made));
        i = i + 1;
    }
    assert(observation_rows(rows@) =~= all);
    rows
}

/// The observations that stand in rows, if all of them can be read.
fn read_observations(rows: &Vec<ObservationBytes>) -> (r: Option<
    SortedMap<SlotKey, SlotObservation>,
>)
    ensures
        match r {
            Some(observations) => observations_of(observation_rows(rows@)) == Some(observations@),
            None => observations_of(observation_rows(rows@)) is None,
        },
{
    let ghost all = observation_rows(rows@);
    let mut observations: SortedMap<SlotKey, SlotObservation> = SortedMap::new();
    let mut readable: bool = true;
    let mut i: usize = 0;
    assert(all.take(0) =~= Seq::empty());
    while i < rows.len()
        invariant
            i <= rows.len(),
            all == observation_rows(rows@),
            readable ==> observations_of(all.take(i as int)) == Some(observations@),
            !readable ==> observations_of(all.take(i as int)) is None,
        decreases rows.len() - i,
    {
        proof {
            assert(all.take(i + 1).drop_last() =~= all.take(i as int));
            assert(all.take(i + 1).last() == all[i as int]);
        }
        match (read_address(&rows[i].0), read_word(&rows[i].1), read_word(&rows[i].2)) {
            (Some(address), Some(slot), Some(last_value)) => {
                observations.insert(
                    SlotKey { address, slot },
                    SlotObservation {
                        last_value,
                        observation_count: rows[i].3,
                        change_count: rows[i].4,
                        last_checked: rows[i].5,
                        last_changed: rows[i].6,
                    },
                );
            },
            _ => {
                readable = false;
            },
        }
        i = i + 1;
    }
    assert(all.take(i as int) =~= all);
    if readable {
        Some(observations)
    } else {
        None
    }
}

/// Observations are read back from their rows.
proof fn lemma_observations_are_read_back(observations: Map<SlotKey, SlotObservation>)
    requires
        observations.dom().finite(),
    ensures
        observations_of(listed_observations(observations)) == Some(observations),
{
    lemma_in_order_lists(observations.dom());
    lemma_listed_are_read_back(observations, in_order(observations.dom()));
    assert(observations.restrict(observations.dom()) =~= observations);
}

/// The observations of some slots are read back from their rows.
proof fn lemma_listed_are_read_back(
    observations: Map<SlotKey, SlotObservation>,
    keys: Seq<SlotKey>,
)
    requires
        keys.to_set().subset_of(observations.dom()),
    ensures
        observations_of(
            keys.map_values(|key: SlotKey| observation_row(key, observations[key])),
        ) == Some(observations.restrict(keys.to_set())),
    decreases keys.len(),
{
    let rows = keys.map_values(|key: SlotKey| observation_row(key, observations[key]));
    if keys.len() == 0 {
        assert(keys.to_set() =~= Set::empty());
        assert(observations.restrict(keys.to_set()) =~= Map::empty());
    } else {
        let less = keys.drop_last();
        let last = keys.last();
        lemma_take_extend(keys, keys.len() - 1);
        assert(keys.take(keys.len() as int) =~= keys);
        assert(keys.take(keys.len() - 1) =~= less);
        lemma_listed_are_read_back(observations, less);
        assert(rows.drop_last() =~= less.map_values(
            |key: SlotKey| observation_row(key, observations[key]),
        ));
        assert(observations.contains_key(last)) by {
            assert(keys.to_set().contains(last));
        }
        lemma_address_comes_back(last.address);
        lemma_word_comes_back(last.slot);
        lemma_word_comes_back(observations[last].last_value);
        assert(observation_in(rows.last()) == Some((last, observations[last])));
        assert(observations.restrict(less.to_set()).insert(last, observations[last])
            =~= observations.restrict(keys.to_set()));
    }
}

/// Observations that are saved and loaded come back: the same slots, with their
/// last values, and the same decisions on every one of them. The file starts with
/// its kind, `EFC-SOBS`, and its version.
pub proof fn law_saved_observations_come_back(
    file: Seq<u8>,
    saved: SlotObservationTracker,
    loaded: SlotObservationTracker,
)
    requires
        is_observations_file(file, saved.observations@),
        loaded.is_from_file(Some(file)),
    ensures
        file.take(8) == seq![0x45u8, 0x46u8, 0x43u8, 0x2du8, 0x53u8, 0x4fu8, 0x42u8, 0x53u8],
        file.subrange(8, 12) == seq![1u8, 0u8, 0u8, 0u8],
        loaded.observations@ == saved.observations@,
        loaded.observations@.len() == saved.observations@.len(),
        forall|key: SlotKey| #[trigger]
            lookup(loaded.observations@, key) == lookup(saved.observations@, key),
        forall|key: SlotKey, now: u64, limits: RefetchLimits| #[trigger]
            refetch_decision(lookup(loaded.observations@, key), now, limits) == refetch_decision(
                lookup(saved.observations@, key),
                now,
                limits,
            ),
        loaded.skipped_this_cycle@ == Seq::<(Address, U256)>::empty(),
        !loaded.dirty,
{
    versioned::law_frame_starts_with_its_kind(
        SLOT_OBSERVATIONS_MAGIC@,
        SLOT_OBSERVATIONS_VERSION,
        observations_payload(listed_observations(saved.observations@)),
    );
    assert(SLOT_OBSERVATIONS_MAGIC@ =~= seq![
        0x45u8,
        0x46u8,
        0x43u8,
        0x2du8,
        0x53u8,
        0x4fu8,
        0x42u8,
        0x53u8,
    ]);
    assert(version_bytes(1) =~= seq![1u8, 0u8, 0u8, 0u8]);
}

/// A file of observations that is not there, is of another kind or version, or
/// whose payload cannot be decoded, counts as one without observations.
pub proof fn law_unreadable_observations_count_as_none(
    data: Option<Seq<u8>>,
    loaded: SlotObservationTracker,
)
    requires
        loaded.is_from_file(data),
        data matches Some(bytes) ==> (unframed(
            bytes,
            SLOT_OBSERVATIONS_MAGIC@,
            SLOT_OBSERVATIONS_VERSION,
        ) matches Some(payload) ==> decoded_observations(payload) is None),
    ensures
        loaded.observations@ == Map::<SlotKey, SlotObservation>::empty(),
        loaded.skipped_this_cycle@ == Seq::<(Address, U256)>::empty(),
        !loaded.dirty,
{
}

/// What is known of a slot once it was observed several times, in order.
pub open spec fn observed_all(
    start: Option<SlotObservation>,
    seen: Seq<(U256, u64)>,
) -> Option<SlotObservation>
    decreases seen.len(),
{
    if seen.len() == 0 {
        start
    } else {
        let (value, now) = seen.last();
        match observed_all(start, seen.drop_last()) {
            Some(before) => Some(before.observed(value, now)),
            None => Some(SlotObservation::first(value, now)),
        }
    }
}

/// Whether the value observed at a position differs from the one before it.
pub open spec fn changes_at(seen: Seq<(U256, u64)>, i: int) -> bool {
    1 <= i < seen.len() && seen[i].0 != seen[i - 1].0
}

/// At how many positions the value differs from the one before it.
pub open spec fn changes_in(seen: Seq<(U256, u64)>) -> nat
    decreases seen.len(),
{
    if seen.len() == 0 {
        0
    } else {
        changes_in(seen.drop_last()) + if changes_at(seen, seen.len() - 1) {
            1nat
        } else {
            0nat
        }
    }
}

/// There are no changes where all values are equal, and only there; there are
/// fewer than observations.
proof fn lemma_changes(seen: Seq<(U256, u64)>)
    ensures
        seen.len() > 0 ==> changes_in(seen) < seen.len(),
        changes_in(seen) == 0 <==> forall|i: int|
            0 <= i < seen.len() ==> (#[trigger] seen[i]).0 == seen[0].0,
        changes_in(seen) == 0 ==> forall|i: int| !#[trigger] changes_at(seen, i),
    decreases seen.len(),
{
    if seen.len() > 0 {
        let fewer = seen.drop_last();
        let last = seen.len() - 1;
        lemma_changes(fewer);
        assert forall|i: int| 0 <= i < fewer.len() implies #[trigger] fewer[i] == seen[i] by {}
        if changes_in(seen) == 0 {
            assert forall|i: int| 0 <= i < seen.len() implies (#[trigger] seen[i]).0
                == seen[0].0 by {
                if i < last {
                    assert(fewer[i].0 == fewer[0].0);
                } else if last > 0 {
                    assert(fewer[last - 1].0 == fewer[0].0);
                }
            }
            assert forall|i: int| !#[trigger] changes_at(seen, i) by {
                if 1 <= i < seen.len() {
                    assert(seen[i].0 == seen[0].0);
                    assert(seen[i - 1].0 == seen[0].0);
                }
            }
        }
        if forall|i: int| 0 <= i < seen.len() ==> (#[trigger] seen[i]).0 == seen[0].0 {
            assert forall|i: int| 0 <= i < fewer.len() implies (#[trigger] fewer[i]).0
                == fewer[0].0 by {
                assert(seen[i].0 == seen[0].0);
            }
            assert(seen[last].0 == seen[0].0);
            if last > 0 {
                assert(seen[last - 1].0 == seen[0].0);
            }
        }
    }
}

/// Over any sequence of observations of a slot, the number of changes is the number
/// of positions at which the value differs from the one before it; it is zero only
/// where all values are equal. Every observation counts once. What is kept is the
/// last value, when it was observed, and when the value last changed.
pub proof fn law_changes_are_counted(seen: Seq<(U256, u64)>)
    requires
        0 < seen.len() <= u32::MAX,
    ensures
        observed_all(None, seen) is Some,
        ({
            let known = observed_all(None, seen)->0;
            &&& known.change_count == changes_in(seen)
            &&& known.observation_count == seen.len()
            &&& known.last_value == seen.last().0
            &&& known.last_checked == seen.last().1
            &&& known.change_count == 0 <==> forall|i: int|
                0 <= i < seen.len() ==> (#[trigger] seen[i]).0 == seen[0].0
            &&& known.change_count == 0 ==> known.last_changed == 0
            &&& forall|i: int| #[trigger]
                changes_at(seen, i) && (forall|later: int|
                    i < later ==> !#[trigger] changes_at(seen, later)) ==> known.last_changed
                    == seen[i].1
        }),
    decreases seen.len(),
{
    lemma_changes(seen);
    let fewer = seen.drop_last();
    let last = seen.len() - 1;
    assert(seen[last] == seen.last());
    assert forall|i: int| 0 <= i < fewer.len() implies #[trigger] fewer[i] == seen[i] by {}
    if fewer.len() == 0 {
        assert(observed_all(None, fewer) is None);
        assert(changes_in(fewer) == 0);
    } else {
        law_changes_are_counted(fewer);
        lemma_changes(fewer);
        let known = observed_all(None, seen)->0;
        assert(fewer.last() == seen[last - 1]);
        assert forall|i: int| #[trigger]
            changes_at(seen, i) && (forall|later: int|
                i < later ==> !#[trigger] changes_at(seen, later)) implies known.last_changed
            == seen[i].1 by {
            if i < last {
                assert(!changes_at(seen, last));
                assert(changes_at(fewer, i));
                assert forall|later: int| i < later implies !#[trigger] changes_at(
                    fewer,
                    later,
                ) by {
                    assert(!changes_at(seen, later));
                }
            }
        }
    }
}

/// However a slot was observed before, more observations never take a change or an
/// observation back: what they add to the count of changes is the number of values
/// among them that differ from the one before.
pub proof fn law_counts_never_fall(start: SlotObservation, seen: Seq<(U256, u64)>)
    requires
        start.observation_count + seen.len() <= u32::MAX,
        start.change_count + seen.len() <= u32::MAX,
    ensures
        observed_all(Some(start), seen) is Some,
        ({
            let known = observed_all(Some(start), seen)->0;
            &&& known.observation_count == start.observation_count + seen.len()
            &&& seen.len() > 0 ==> known.last_value == seen.last().0
            &&& seen.len() == 0 ==> known == start
            &&& known.change_count == start.change_count + changes_in(
                seq![(start.last_value, 0u64)] + seen,
            )
            &&& known.change_count >= start.change_count
            &&& known.change_count <= start.change_count + seen.len()
        }),
    decreases seen.len(),
{
    let all = seq![(start.last_value, 0u64)] + seen;
    if seen.len() > 0 {
        let fewer = seen.drop_last();
        law_counts_never_fall(start, fewer);
        assert(all.drop_last() =~= seq![(start.last_value, 0u64)] + fewer);
        let last = all.len() - 1;
        assert(all[last] == seen.last());
        if fewer.len() > 0 {
            assert(all[last - 1] == fewer.last());
        } else {
            assert(all[last - 1] == (start.last_value, 0u64));
        }
    } else {
        assert(all.drop_last() =~= Seq::empty());
        assert(changes_in(all.drop_last()) == 0);
        assert(changes_in(all) == 0);
    }
}

/// A slot is fetched again where it was never observed, observed too rarely or
/// checked too long ago, and nowhere else without an estimate. A slot that changed
/// is never reused without one, and one that never changed needs none. Checking it
/// later, or asking for more observations, never turns a refetch away.
pub proof fn law_refetch_limits(
    seen: SlotObservation,
    now: u64,
    later: u64,
    limits: RefetchLimits,
    stricter: RefetchLimits,
)
    requires
        now <= later,
        stricter.min_observations >= limits.min_observations,
        stricter.max_reuse <= limits.max_reuse,
    ensures
        refetch_decision(None, now, limits) is Refetch,
        refetch_decision(Some(seen), now, limits) is Refetch <==> (seen.observation_count
            < limits.min_observations || now > seen.last_checked + limits.max_reuse),
        refetch_decision(Some(seen), now, limits) is Reuse ==> seen.change_count == 0,
        refetch_decision(Some(seen), now, limits) is Estimate ==> seen.change_count > 0,
        refetch_decision(Some(seen), now, limits) is Refetch ==> refetch_decision(
            Some(seen),
            later,
            stricter,
        ) is Refetch,
        refetch_decision(Some(seen), now, limits) matches RefetchDecision::Estimate {
            change_count,
            observation_count,
            elapsed,
            cycle_interval,
        } ==> {
            &&& change_count == seen.change_count
            &&& observation_count == seen.observation_count
            &&& now >= seen.last_checked ==> elapsed == now - seen.last_checked
            &&& now < seen.last_checked ==> elapsed == 0
            &&& cycle_interval >= 1
            &&& limits.cycle_interval > 0 ==> cycle_interval == limits.cycle_interval
        },
{
}

} // verus!
