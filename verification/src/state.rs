//! The round state machine's phases and their request handlers.
//!
//! A round traverses Idle, Sum, Update, Sum2 and Unmask. Each phase accepts
//! requests for a minimum time window, then keeps accepting them until its
//! quorum predicate holds; exhausting the budget aborts the round. The
//! handlers here decide everything about a request; the timed loop that feeds
//! them lives outside, since it waits on channels and clocks.

use crate::aggregation::{agg_step, can_aggregate, Aggregation, AggregationV};
use crate::bignum::copy_bytes;
use crate::dicts::{
    inner_keys, pairs_get, pairs_has_key, pairs_unique, pairs_unique_exec, LocalSeedDict,
    MaskDict, SeedDict, SumDict,
};
use crate::events::Events;
use crate::mask::{MaskConfig, MaskObject};
use crate::preprocessor::RoundParameters;
use vstd::prelude::*;

verus! {

/// Errors returned to a single requester; they never abort the round.
#[derive(Debug, Clone, Copy, PartialEq, Eq)]
pub enum StateMachineError {
    /// The request is not for the current phase, or cannot be counted.
    MessageRejected,
    /// The local seed dictionary does not match the frozen sum dictionary, or
    /// repeats an updater.
    InvalidLocalSeedDict,
    /// The masked model or scalar cannot be aggregated.
    AggregationFailed,
}

/// Errors that abort the whole round.
#[derive(Debug, Clone, Copy, PartialEq, Eq)]
pub enum StateError {
    /// The phase's time budget elapsed before its quorum was met.
    Timeout,
    /// The request channel closed.
    ChannelClosed,
    /// No mask object won the sum2 vote.
    UnmaskFailed,
}

/// A sum request: the participant offers an ephemeral encryption key.
#[derive(Debug, Clone, PartialEq, Eq)]
pub struct SumRequest {
    pub participant_pk: Vec<u8>,
    pub ephm_pk: Vec<u8>,
}

/// An update request: the encrypted seeds, one per sum participant, and the
/// masked model and scalar.
#[derive(Debug, Clone, PartialEq, Eq)]
pub struct UpdateRequest {
    pub participant_pk: Vec<u8>,
    pub local_seed_dict: LocalSeedDict,
    pub masked_model: MaskObject,
    pub masked_scalar: MaskObject,
}

/// A sum2 request: the participant's vote for the aggregated mask.
#[derive(Debug, Clone, PartialEq, Eq)]
pub struct Sum2Request {
    pub participant_pk: Vec<u8>,
    pub model_mask: MaskObject,
}

/// A request to the state machine, as the router delivers it.
#[derive(Debug, Clone, PartialEq, Eq)]
pub enum StateMachineRequest {
    Sum(SumRequest),
    Update(UpdateRequest),
    Sum2(Sum2Request),
}

/// What a phase decides at a tick: keep accepting requests, transition on
/// quorum, or abort the round on an exhausted budget.
#[derive(Debug, Clone, Copy, PartialEq, Eq)]
pub enum PhaseOutcome {
    Pending,
    Transition,
    TimedOut,
}

/// The state every phase shares: immutable configuration, round-scoped state,
/// and the event bus.
#[derive(Debug, Clone, PartialEq, Eq)]
pub struct Shared {
    pub round_id: u64,
    pub round_params: RoundParameters,
    pub min_sum_count: usize,
    pub min_update_count: usize,
    pub min_sum2_count: usize,
    pub min_sum_time: u64,
    pub max_sum_time: u64,
    pub min_update_time: u64,
    pub max_update_time: u64,
    pub min_sum2_time: u64,
    pub max_sum2_time: u64,
    pub mask_config: MaskConfig,
    pub model_size: usize,
    pub events: Events,
}

/// A phase of the state machine: the phase's own state plus the shared state.
#[derive(Debug, Clone, PartialEq, Eq)]
pub struct PhaseState<S> {
    pub inner: S,
    pub shared: Shared,
}

/// Update phase state.
#[derive(Debug, Clone, PartialEq, Eq)]
pub struct Update {
    /// The frozen sum dictionary built during the sum phase.
    pub frozen_sum_dict: SumDict,
    /// The seed dictionary built during the update phase.
    pub seed_dict: SeedDict,
    /// The aggregator for masked models.
    pub model_agg: Aggregation,
    /// The aggregator for masked scalars.
    pub scalar_agg: Aggregation,
}

impl Update {
    /// The frozen sum dictionary.
    pub fn frozen_sum_dict(&self) -> (r: &SumDict)
        ensures
            r == &self.frozen_sum_dict,
    {
        &self.frozen_sum_dict
    }

    /// The seed dictionary built so far.
    pub fn seed_dict(&self) -> (r: &SeedDict)
        ensures
            r == &self.seed_dict,
    {
        &self.seed_dict
    }

    /// The masked-model aggregation built so far.
    pub fn aggregation(&self) -> (r: &Aggregation)
        ensures
            r == &self.model_agg,
    {
        &self.model_agg
    }
}

/// Sum2 phase state.
#[derive(Debug, Clone, PartialEq, Eq)]
pub struct Sum2 {
    /// The frozen sum dictionary.
    pub sum_dict: SumDict,
    /// The aggregator for masked models, carried from the update phase.
    pub model_agg: Aggregation,
    /// The aggregator for masked scalars, carried from the update phase.
    pub scalar_agg: Aggregation,
    /// The mask dictionary: votes for the aggregated mask.
    pub mask_dict: MaskDict,
}

impl Sum2 {
    /// The frozen sum dictionary.
    pub fn sum_dict(&self) -> (r: &SumDict)
        ensures
            r == &self.sum_dict,
    {
        &self.sum_dict
    }

    /// The masked-model aggregation.
    pub fn aggregation(&self) -> (r: &Aggregation)
        ensures
            r == &self.model_agg,
    {
        &self.model_agg
    }

    /// The mask dictionary.
    pub fn mask_dict(&self) -> (r: &MaskDict)
        ensures
            r == &self.mask_dict,
    {
        &self.mask_dict
    }
}

/// The state machine: the phase it is in, with that phase's state.
pub enum StateMachine {
    Update(PhaseState<Update>),
    Sum2(PhaseState<Sum2>),
}

impl PhaseState<Update> {
    /// How many updaters contributed so far: the size of the first inner
    /// dictionary (all inner dictionaries agree under the phase invariant).
    pub open spec fn upd_count(&self) -> nat {
        if self.inner.seed_dict@.len() == 0 {
            0
        } else {
            self.inner.seed_dict@[0].1.len()
        }
    }

    /// The update phase invariant: the seed dictionary mirrors the frozen sum
    /// dictionary's keys, all inner dictionaries hold the same updaters in
    /// the same order, and the aggregations count exactly the accepted
    /// updaters.
    pub open spec fn update_inv(&self) -> bool {
        &&& self.inner.frozen_sum_dict.wf()
        &&& self.inner.seed_dict.key_seq() == self.inner.frozen_sum_dict.key_seq()
        &&& self.inner.seed_dict.keys_unique()
        &&& self.inner.seed_dict.uniform()
        &&& self.inner.seed_dict.inners_unique()
        &&& self.inner.model_agg.wf()
        &&& self.inner.scalar_agg.wf()
        &&& self.inner.seed_dict@.len() > 0 ==> self.inner.model_agg@.count == self.upd_count()
            && self.inner.scalar_agg@.count == self.upd_count()
    }

    /// Whether this updater was already counted. Only the first inner
    /// dictionary is inspected; under the invariant they all agree.
    pub open spec fn updater_seen(&self, pk: Seq<u8>) -> bool {
        self.inner.seed_dict@.len() > 0 && pairs_has_key(self.inner.seed_dict@[0].1, pk)
    }

    /// Whether a local seed dictionary is acceptable: its key set equals the
    /// frozen sum dictionary's key set, no key repeats, and the updater is new.
    pub open spec fn local_dict_acceptable(&self, pk: Seq<u8>, local: Seq<(Seq<u8>, Seq<u8>)>)
        -> bool {
        &&& pairs_unique(local)
        &&& forall|i: int|
            0 <= i < local.len() ==> pairs_has_key(
                self.inner.frozen_sum_dict@,
                (#[trigger] local[i]).0,
            )
        &&& forall|j: int|
            0 <= j < self.inner.frozen_sum_dict@.len() ==> pairs_has_key(
                local,
                (#[trigger] self.inner.frozen_sum_dict@[j]).0,
            )
        &&& !self.updater_seen(pk)
    }

    /// The exact outcome of handling an update request: the first failed
    /// validation names the error, and only a fully validated request passes.
    pub open spec fn update_outcome(&self, req: UpdateRequest) -> Result<(), StateMachineError> {
        if !can_aggregate(self.inner.model_agg@, req.masked_model@) {
            Err(StateMachineError::AggregationFailed)
        } else if !can_aggregate(self.inner.scalar_agg@, req.masked_scalar@) {
            Err(StateMachineError::AggregationFailed)
        } else if !self.local_dict_acceptable(req.participant_pk@, req.local_seed_dict@) {
            Err(StateMachineError::InvalidLocalSeedDict)
        } else {
            Ok(())
        }
    }

    /// What an accepted update did to the phase state: every inner seed
    /// dictionary grew by this updater's seed for that sum participant, and
    /// both aggregations advanced by the masked objects.
    pub open spec fn update_applied(pre: Self, post: Self, req: UpdateRequest) -> bool {
        &&& post.shared == pre.shared
        &&& post.inner.frozen_sum_dict == pre.inner.frozen_sum_dict
        &&& post.inner.model_agg@ == agg_step(pre.inner.model_agg@, req.masked_model@)
        &&& post.inner.scalar_agg@ == agg_step(pre.inner.scalar_agg@, req.masked_scalar@)
        &&& post.inner.seed_dict@.len() == pre.inner.seed_dict@.len()
        &&& forall|j: int|
            0 <= j < pre.inner.seed_dict@.len() ==> (#[trigger] post.inner.seed_dict@[j]).0
                == pre.inner.seed_dict@[j].0 && post.inner.seed_dict@[j].1
                == pre.inner.seed_dict@[j].1.push(
                (req.participant_pk@, pairs_get(req.local_seed_dict@, pre.inner.seed_dict@[j].0)),
            )
    }

    /// Creates a new update state over a frozen sum dictionary and a seed
    /// dictionary pre-populated with one empty inner dictionary per sum
    /// participant.
    pub fn new(shared: Shared, frozen_sum_dict: SumDict, seed_dict: SeedDict) -> (r: Self)
        requires
            shared.mask_config.wf(),
            frozen_sum_dict.wf(),
            seed_dict.key_seq() == frozen_sum_dict.key_seq(),
            forall|i: int| 0 <= i < seed_dict@.len() ==> (#[trigger] seed_dict@[i]).1.len() == 0,
        ensures
            r.update_inv(),
            r.shared == shared,
            r.inner.frozen_sum_dict == frozen_sum_dict,
            r.inner.seed_dict == seed_dict,
            r.inner.model_agg.size == shared.model_size,
            r.inner.model_agg@ == (AggregationV {
                order: shared.mask_config.order@,
                size: shared.model_size as nat,
                partial: Seq::new(shared.model_size as nat, |i: int| 0nat),
                scalar: 0,
                count: 0,
            }),
            r.inner.scalar_agg.size == 1,
            r.inner.scalar_agg@ == (AggregationV {
                order: shared.mask_config.order@,
                size: 1,
                partial: Seq::new(1, |i: int| 0nat),
                scalar: 0,
                count: 0,
            }),
            r.upd_count() == 0,
    {
        let model_agg = Aggregation::new(shared.mask_config.duplicate(), shared.model_size);
        let scalar_agg = Aggregation::new(shared.mask_config.duplicate(), 1);
        let r = Self {
            inner: Update { frozen_sum_dict, seed_dict, model_agg, scalar_agg },
            shared,
        };
        proof {
            assert(r.inner.seed_dict.key_seq().len() == r.inner.frozen_sum_dict.key_seq().len());
            assert forall|i: int, j: int|
                0 <= i < j < r.inner.seed_dict@.len() implies r.inner.seed_dict@[i].0
                != r.inner.seed_dict@[j].0 by {
                assert(r.inner.seed_dict.key_seq()[i] == r.inner.seed_dict@[i].0);
                assert(r.inner.seed_dict.key_seq()[j] == r.inner.seed_dict@[j].0);
                assert(r.inner.frozen_sum_dict.key_seq()[i] == r.inner.frozen_sum_dict@[i].0);
                assert(r.inner.frozen_sum_dict.key_seq()[j] == r.inner.frozen_sum_dict@[j].0);
                assert(r.inner.frozen_sum_dict@[i].0 != r.inner.frozen_sum_dict@[j].0);
            }
            assert forall|i: int, j: int|
                0 <= i < r.inner.seed_dict@.len() && 0 <= j < r.inner.seed_dict@.len() implies
                inner_keys((#[trigger] r.inner.seed_dict@[i]).1) =~= inner_keys(
                (#[trigger] r.inner.seed_dict@[j]).1,
            ) by {}
        }
        r
    }

    /// Handles a request during the update phase: update requests go to the
    /// update handler, any other request is rejected untouched.
    pub fn handle_request(&mut self, req: StateMachineRequest) -> (r: Result<
        (),
        StateMachineError,
    >)
        requires
            old(self).update_inv(),
        ensures
            final(self).update_inv(),
            !(req is Update) ==> r == Err::<(), StateMachineError>(
                StateMachineError::MessageRejected,
            ) && *final(self) == *old(self),
            req is Update ==> r == old(self).update_outcome(req->Update_0),
            req is Update && r is Err ==> *final(self) == *old(self),
            req is Update && r is Ok ==> Self::update_applied(*old(self), *final(self), req->Update_0),
    {
        match req {
            StateMachineRequest::Update(update_req) => self.handle_update(update_req),
            _ => Err(StateMachineError::MessageRejected),
        }
    }

    /// Handles an update request; a failed validation is returned to the
    /// request sender and leaves the phase state untouched.
    pub fn handle_update(&mut self, req: UpdateRequest) -> (r: Result<(), StateMachineError>)
        requires
            old(self).update_inv(),
        ensures
            final(self).update_inv(),
            r == old(self).update_outcome(req),
            r is Err ==> *final(self) == *old(self),
            r is Ok ==> Self::update_applied(*old(self), *final(self), req),
    {
        let UpdateRequest { participant_pk, local_seed_dict, masked_model, masked_scalar } = req;
        self.update_seed_dict_and_aggregate_mask(
            &participant_pk,
            &local_seed_dict,
            masked_model,
            masked_scalar,
        )
    }

    /// Updates the seed dictionary and aggregates the masked model and scalar.
    ///
    /// Aggregation is validated before anything is mutated, and the seed
    /// dictionary is filled before either aggregation runs, so a rejected
    /// request leaves the whole phase state exactly as it was.
    pub fn update_seed_dict_and_aggregate_mask(
        &mut self,
        pk: &Vec<u8>,
        local_seed_dict: &LocalSeedDict,
        masked_model: MaskObject,
        masked_scalar: MaskObject,
    ) -> (r: Result<(), StateMachineError>)
        requires
            old(self).update_inv(),
        ensures
            final(self).update_inv(),
            r == old(self).update_outcome(
                UpdateRequest {
                    participant_pk: *pk,
                    local_seed_dict: *local_seed_dict,
                    masked_model,
                    masked_scalar,
                },
            ),
            r is Err ==> *final(self) == *old(self),
            r is Ok ==> Self::update_applied(
                *old(self),
                *final(self),
                UpdateRequest {
                    participant_pk: *pk,
                    local_seed_dict: *local_seed_dict,
                    masked_model,
                    masked_scalar,
                },
            ),
    {
        if let Err(_) = self.inner.model_agg.validate_aggregation(&masked_model) {
            return Err(StateMachineError::AggregationFailed);
        }
        if let Err(_) = self.inner.scalar_agg.validate_aggregation(&masked_scalar) {
            return Err(StateMachineError::AggregationFailed);
        }
        if let Err(e) = self.add_local_seed_dict(pk, local_seed_dict) {
            return Err(e);
        }
        self.inner.model_agg.aggregate(masked_model);
        self.inner.scalar_agg.aggregate(masked_scalar);
        proof {
            assert(self.inner.seed_dict.key_seq().len() == self.inner.seed_dict@.len());
            assert(old(self).inner.seed_dict.key_seq().len() == old(self).inner.seed_dict@.len());
        }
        Ok(())
    }

    /// Adds a local seed dictionary: one seed per sum participant, appended to
    /// that participant's inner dictionary. Fails, mutating nothing, when the
    /// key sets differ, a key repeats, or the updater was already counted.
    pub fn add_local_seed_dict(&mut self, pk: &Vec<u8>, local_seed_dict: &LocalSeedDict) -> (r:
        Result<(), StateMachineError>)
        requires
            old(self).update_inv(),
        ensures
            r is Ok <==> old(self).local_dict_acceptable(pk@, local_seed_dict@),
            r is Err ==> r == Err::<(), StateMachineError>(
                StateMachineError::InvalidLocalSeedDict,
            ) && *final(self) == *old(self),
            r is Ok ==> {
                &&& final(self).shared == old(self).shared
                &&& final(self).inner.frozen_sum_dict == old(self).inner.frozen_sum_dict
                &&& final(self).inner.model_agg == old(self).inner.model_agg
                &&& final(self).inner.scalar_agg == old(self).inner.scalar_agg
                &&& final(self).inner.seed_dict@.len() == old(self).inner.seed_dict@.len()
                &&& forall|j: int|
                    0 <= j < old(self).inner.seed_dict@.len() ==> (
                    #[trigger] final(self).inner.seed_dict@[j]).0 == old(
                        self,
                    ).inner.seed_dict@[j].0 && final(self).inner.seed_dict@[j].1 == old(
                        self,
                    ).inner.seed_dict@[j].1.push(
                        (pk@, pairs_get(local_seed_dict@, old(self).inner.seed_dict@[j].0)),
                    )
                &&& final(self).inner.seed_dict.key_seq() == old(self).inner.seed_dict.key_seq()
                &&& final(self).inner.seed_dict.keys_unique()
                &&& final(self).inner.seed_dict.uniform()
                &&& final(self).inner.seed_dict.inners_unique()
                &&& old(self).inner.seed_dict@.len() > 0 ==> final(self).upd_count() == old(
                    self,
                ).upd_count() + 1
            },
    {
        // Validate: unique keys, both inclusions, and a fresh updater.
        if !pairs_unique_exec(&local_seed_dict.entries) {
            return Err(StateMachineError::InvalidLocalSeedDict);
        }
        let n_local = local_seed_dict.entries.len();
        let mut i: usize = 0;
        while i < n_local
            invariant
                i <= n_local,
                n_local == local_seed_dict@.len(),
                *self == *old(self),
                old(self).update_inv(),
                forall|k: int|
                    0 <= k < i ==> pairs_has_key(
                        old(self).inner.frozen_sum_dict@,
                        (#[trigger] local_seed_dict@[k]).0,
                    ),
            decreases n_local - i,
        {
            if !self.inner.frozen_sum_dict.contains_key(&local_seed_dict.entries[i].0) {
                proof {
                    assert(local_seed_dict@[i as int].0 == local_seed_dict.entries@[i as int].0@);
                    assert(!pairs_has_key(
                        old(self).inner.frozen_sum_dict@,
                        local_seed_dict@[i as int].0,
                    ));
                }
                return Err(StateMachineError::InvalidLocalSeedDict);
            }
            proof {
                assert(local_seed_dict@[i as int].0 == local_seed_dict.entries@[i as int].0@);
            }
            i += 1;
        }
        let n_frozen = self.inner.frozen_sum_dict.entries.len();
        let mut j: usize = 0;
        while j < n_frozen
            invariant
                j <= n_frozen,
                n_frozen == old(self).inner.frozen_sum_dict@.len(),
                *self == *old(self),
                old(self).update_inv(),
                forall|k: int|
                    0 <= k < j ==> pairs_has_key(
                        local_seed_dict@,
                        (#[trigger] old(self).inner.frozen_sum_dict@[k]).0,
                    ),
            decreases n_frozen - j,
        {
            match crate::dicts::find_key(
                &local_seed_dict.entries,
                &self.inner.frozen_sum_dict.entries[j].0,
            ) {
                Some(_) => {},
                None => {
                    proof {
                        assert(old(self).inner.frozen_sum_dict@[j as int].0 == self
                            .inner
                            .frozen_sum_dict
                            .entries@[j as int].0@);
                        assert(!pairs_has_key(
                            local_seed_dict@,
                            old(self).inner.frozen_sum_dict@[j as int].0,
                        ));
                        assert(!old(self).local_dict_acceptable(pk@, local_seed_dict@));
                    }
                    return Err(StateMachineError::InvalidLocalSeedDict);
                },
            }
            proof {
                assert(old(self).inner.frozen_sum_dict@[j as int].0 == self
                    .inner
                    .frozen_sum_dict
                    .entries@[j as int].0@);
            }
            j += 1;
        }
        if self.inner.seed_dict.contains_updater(pk) {
            return Err(StateMachineError::InvalidLocalSeedDict);
        }
        // Insert: walk the seed dictionary's own entries; every sum key has a
        // seed in the local dictionary, which is unique, so each inner
        // dictionary grows by exactly this updater's seed for that key.
        let n_sd = self.inner.seed_dict.entries.len();
        let mut t: usize = 0;
        while t < n_sd
            invariant
                t <= n_sd,
                n_sd == old(self).inner.seed_dict@.len(),
                self.shared == old(self).shared,
                self.inner.frozen_sum_dict == old(self).inner.frozen_sum_dict,
                self.inner.model_agg == old(self).inner.model_agg,
                self.inner.scalar_agg == old(self).inner.scalar_agg,
                self.inner.seed_dict@.len() == n_sd,
                old(self).update_inv(),
                old(self).local_dict_acceptable(pk@, local_seed_dict@),
                forall|k: int|
                    0 <= k < t ==> (#[trigger] self.inner.seed_dict@[k]).0 == old(
                        self,
                    ).inner.seed_dict@[k].0 && self.inner.seed_dict@[k].1 == old(
                        self,
                    ).inner.seed_dict@[k].1.push(
                        (pk@, pairs_get(local_seed_dict@, old(self).inner.seed_dict@[k].0)),
                    ),
                forall|k: int|
                    t <= k < n_sd ==> (#[trigger] self.inner.seed_dict@[k]) == old(
                        self,
                    ).inner.seed_dict@[k],
            decreases n_sd - t,
        {
            let sum_pk = copy_bytes(&self.inner.seed_dict.entries[t].0);
            proof {
                assert(self.inner.seed_dict@[t as int] == old(self).inner.seed_dict@[t as int]);
                assert(self.inner.seed_dict@[t as int].0 == self
                    .inner
                    .seed_dict
                    .entries@[t as int].0@);
                assert(sum_pk@ == old(self).inner.seed_dict@[t as int].0);
                assert(old(self).inner.seed_dict.key_seq()[t as int] == old(
                    self,
                ).inner.seed_dict@[t as int].0);
                assert(old(self).inner.frozen_sum_dict.key_seq().len() == old(
                    self,
                ).inner.frozen_sum_dict@.len());
                assert(t < old(self).inner.frozen_sum_dict@.len());
                assert(old(self).inner.frozen_sum_dict.key_seq()[t as int] == old(
                    self,
                ).inner.frozen_sum_dict@[t as int].0);
                assert(sum_pk@ == old(self).inner.frozen_sum_dict@[t as int].0);
                assert(pairs_has_key(local_seed_dict@, sum_pk@));
            }
            let idx = match crate::dicts::find_key(&local_seed_dict.entries, &sum_pk) {
                Some(idx) => idx,
                None => {
                    proof {
                        assert(false);
                    }
                    vstd::pervasive::unreached()
                },
            };
            let seed = copy_bytes(&local_seed_dict.entries[idx].1);
            proof {
                let c = choose|c: int|
                    0 <= c < local_seed_dict@.len() && (#[trigger] local_seed_dict@[c]).0
                        == sum_pk@;
                assert(c == idx as int);
                assert(seed@ == pairs_get(local_seed_dict@, sum_pk@));
            }
            let upk = copy_bytes(pk);
            self.inner.seed_dict.insert_seed(t, upk, seed);
            t += 1;
        }
        proof {
            lemma_update_inv_after_insert(old(self), self, pk@, local_seed_dict@);
        }
        Ok(())
    }

    /// The number of update participants that sent a valid update message.
    pub fn updater_count(&self) -> (r: usize)
        ensures
            r as nat == self.upd_count(),
    {
        self.inner.seed_dict.updater_count()
    }

    /// Whether the update quorum is met.
    pub fn has_enough_updates(&self) -> (r: bool)
        ensures
            r == (self.upd_count() >= self.shared.min_update_count as nat),
    {
        self.updater_count() >= self.shared.min_update_count
    }

    /// What the phase decides at a tick: the phase transitions exactly when
    /// the quorum predicate holds at a tick past the minimum window, and the
    /// round aborts exactly when the budget elapsed without that.
    pub fn next_step(&self, elapsed_secs: u64) -> (r: PhaseOutcome)
        ensures
            r is Transition <==> (elapsed_secs >= self.shared.min_update_time && self.upd_count()
                >= self.shared.min_update_count as nat),
            r is TimedOut <==> (elapsed_secs >= self.shared.max_update_time && !(elapsed_secs
                >= self.shared.min_update_time && self.upd_count()
                >= self.shared.min_update_count as nat)),
    {
        if elapsed_secs >= self.shared.min_update_time && self.has_enough_updates() {
            PhaseOutcome::Transition
        } else if elapsed_secs >= self.shared.max_update_time {
            PhaseOutcome::TimedOut
        } else {
            PhaseOutcome::Pending
        }
    }

    /// Moves from the update phase to the sum2 phase: broadcasts the mask
    /// length and the global seed dictionary, then hands the whole shared
    /// state, the frozen sum dictionary and both aggregations, untouched, to
    /// the next phase.
    pub fn next(self) -> (r: Option<StateMachine>)
        ensures
            r is Some && r->Some_0 is Sum2,
            ({
                let s2 = r->Some_0->Sum2_0;
                &&& s2.shared.events.mask_length == Some(self.inner.model_agg.size)
                &&& s2.shared.events.seed_dict == Some(self.inner.seed_dict)
                &&& s2.shared.events.phase == self.shared.events.phase
                &&& s2.shared.events.round_params == self.shared.events.round_params
                &&& s2.shared.events.sum_dict == self.shared.events.sum_dict
                &&& s2.shared.round_id == self.shared.round_id
                &&& s2.shared.round_params == self.shared.round_params
                &&& s2.shared.min_sum_count == self.shared.min_sum_count
                &&& s2.shared.min_update_count == self.shared.min_update_count
                &&& s2.shared.min_sum2_count == self.shared.min_sum2_count
                &&& s2.shared.min_sum_time == self.shared.min_sum_time
                &&& s2.shared.max_sum_time == self.shared.max_sum_time
                &&& s2.shared.min_update_time == self.shared.min_update_time
                &&& s2.shared.max_update_time == self.shared.max_update_time
                &&& s2.shared.min_sum2_time == self.shared.min_sum2_time
                &&& s2.shared.max_sum2_time == self.shared.max_sum2_time
                &&& s2.shared.mask_config == self.shared.mask_config
                &&& s2.shared.model_size == self.shared.model_size
                &&& s2.inner.sum_dict == self.inner.frozen_sum_dict
                &&& s2.inner.model_agg == self.inner.model_agg
                &&& s2.inner.scalar_agg == self.inner.scalar_agg
                &&& s2.inner.mask_dict@ =~= Seq::<(crate::mask::MaskObjectV, nat)>::empty()
            }),
    {
        let PhaseState {
            inner: Update { frozen_sum_dict, seed_dict, model_agg, scalar_agg },
            mut shared,
        } = self;
        let mask_length = model_agg.len();
        shared.events.broadcast_mask_length(mask_length);
        shared.events.broadcast_seed_dict(seed_dict);
        Some(
            StateMachine::Sum2(
                PhaseState::<Sum2>::new(shared, frozen_sum_dict, model_agg, scalar_agg),
            ),
        )
    }
}

/// The seed-dict invariant, spelled out: while the update phase runs, every
/// sum participant's inner dictionary holds exactly one seed per accepted
/// updater — the inner key sequences are all identical, so every inner size
/// equals the updater count.
pub proof fn lemma_seed_dict_uniform(st: &PhaseState<Update>)
    requires
        st.update_inv(),
    ensures
        forall|i: int|
            0 <= i < st.inner.seed_dict@.len() ==> (#[trigger] st.inner.seed_dict@[i]).1.len()
                == st.upd_count(),
        forall|i: int, j: int|
            0 <= i < st.inner.seed_dict@.len() && 0 <= j < st.inner.seed_dict@.len()
                ==> inner_keys((#[trigger] st.inner.seed_dict@[i]).1) == inner_keys(
                (#[trigger] st.inner.seed_dict@[j]).1,
            ),
{
    let sd = st.inner.seed_dict@;
    assert forall|i: int| 0 <= i < sd.len() implies (#[trigger] sd[i]).1.len()
        == st.upd_count() by {
        assert(inner_keys(sd[i].1) =~= inner_keys(sd[0].1));
        assert(inner_keys(sd[i].1).len() == sd[i].1.len());
        assert(inner_keys(sd[0].1).len() == sd[0].1.len());
    }
}

/// The invariant survives an accepted insertion: every inner dictionary grew
/// by the same fresh updater, and both aggregations will count it.
proof fn lemma_update_inv_after_insert(
    pre: &PhaseState<Update>,
    post: &PhaseState<Update>,
    pk: Seq<u8>,
    local: Seq<(Seq<u8>, Seq<u8>)>,
)
    requires
        pre.update_inv(),
        pre.local_dict_acceptable(pk, local),
        post.inner.frozen_sum_dict == pre.inner.frozen_sum_dict,
        post.inner.model_agg == pre.inner.model_agg,
        post.inner.scalar_agg == pre.inner.scalar_agg,
        post.inner.seed_dict@.len() == pre.inner.seed_dict@.len(),
        forall|j: int|
            0 <= j < pre.inner.seed_dict@.len() ==> (#[trigger] post.inner.seed_dict@[j]).0
                == pre.inner.seed_dict@[j].0 && post.inner.seed_dict@[j].1
                == pre.inner.seed_dict@[j].1.push(
                (pk, pairs_get(local, pre.inner.seed_dict@[j].0)),
            ),
    ensures
        post.inner.seed_dict.key_seq() == pre.inner.seed_dict.key_seq(),
        post.inner.seed_dict.uniform(),
        post.inner.seed_dict.keys_unique(),
        post.inner.seed_dict.inners_unique(),
        pre.inner.seed_dict@.len() > 0 ==> post.upd_count() == pre.upd_count() + 1,
{
    let sd_pre = pre.inner.seed_dict@;
    let sd_post = post.inner.seed_dict@;
    assert(post.inner.seed_dict.key_seq() =~= pre.inner.seed_dict.key_seq());
    assert forall|i: int, j: int|
        0 <= i < sd_post.len() && 0 <= j < sd_post.len() implies inner_keys(
        (#[trigger] sd_post[i]).1,
    ) =~= inner_keys((#[trigger] sd_post[j]).1) by {
        assert(inner_keys(sd_pre[i].1) =~= inner_keys(sd_pre[j].1));
        assert(sd_post[i].1 == sd_pre[i].1.push((pk, pairs_get(local, sd_pre[i].0))));
        assert(sd_post[j].1 == sd_pre[j].1.push((pk, pairs_get(local, sd_pre[j].0))));
        let ki = inner_keys(sd_post[i].1);
        let kj = inner_keys(sd_post[j].1);
        assert(inner_keys(sd_pre[i].1).len() == inner_keys(sd_pre[j].1).len());
        assert(ki.len() == kj.len());
        assert forall|a: int| 0 <= a < ki.len() implies ki[a] == kj[a] by {
            if a < sd_pre[i].1.len() {
                assert(ki[a] == sd_pre[i].1[a].0);
                assert(inner_keys(sd_pre[i].1)[a] == sd_pre[i].1[a].0);
                assert(inner_keys(sd_pre[j].1)[a] == sd_pre[j].1[a].0);
                assert(kj[a] == sd_pre[j].1[a].0);
            } else {
                assert(ki[a] == pk);
                assert(kj[a] == pk);
            }
        }
        assert(ki =~= kj);
    }
    assert forall|i: int| 0 <= i < sd_post.len() implies pairs_unique(
        (#[trigger] sd_post[i]).1,
    ) by {
        let inner_pre = sd_pre[i].1;
        let inner_post = sd_post[i].1;
        assert(pairs_unique(inner_pre));
        // the new updater key is fresh: it is absent from the first inner
        // dictionary, and all inner key sequences agree
        assert(!pairs_has_key(sd_pre[0].1, pk));
        assert(inner_keys(inner_pre) =~= inner_keys(sd_pre[0].1));
        assert forall|a: int| 0 <= a < inner_pre.len() implies (#[trigger] inner_pre[a]).0
            != pk by {
            assert(inner_keys(inner_pre)[a] == inner_pre[a].0);
            assert(inner_keys(sd_pre[0].1)[a] == sd_pre[0].1[a].0);
            if inner_pre[a].0 == pk {
                assert(pairs_has_key(sd_pre[0].1, pk));
            }
        }
    }
    if sd_pre.len() > 0 {
        assert(sd_post[0].1.len() == sd_pre[0].1.len() + 1);
    }
}

impl PhaseState<Sum2> {
    /// The sum2 phase invariant: frozen keys unique, distinct mask objects.
    pub open spec fn sum2_inv(&self) -> bool {
        &&& self.inner.sum_dict.wf()
        &&& self.inner.mask_dict.wf()
    }

    /// The exact outcome of handling a sum2 request: only a registered sum
    /// participant's vote counts, and a vote that cannot be counted any
    /// higher is rejected.
    pub open spec fn sum2_outcome(&self, req: Sum2Request) -> Result<(), StateMachineError> {
        if !pairs_has_key(self.inner.sum_dict@, req.participant_pk@) {
            Err(StateMachineError::MessageRejected)
        } else if crate::dicts::mask_dict_has(self.inner.mask_dict@, req.model_mask@)
            && self.inner.mask_dict@[choose|i: int|
            0 <= i < self.inner.mask_dict@.len() && (#[trigger] self.inner.mask_dict@[i]).0
                == req.model_mask@].1 >= usize::MAX as nat {
            Err(StateMachineError::MessageRejected)
        } else {
            Ok(())
        }
    }

    /// Creates a new sum2 state from what the update phase hands over.
    pub fn new(
        shared: Shared,
        sum_dict: SumDict,
        model_agg: Aggregation,
        scalar_agg: Aggregation,
    ) -> (r: Self)
        ensures
            r.shared == shared,
            r.inner.sum_dict == sum_dict,
            r.inner.model_agg == model_agg,
            r.inner.scalar_agg == scalar_agg,
            r.inner.mask_dict@ =~= Seq::<(crate::mask::MaskObjectV, nat)>::empty(),
            sum_dict.wf() ==> r.sum2_inv(),
    {
        Self { inner: Sum2 { sum_dict, model_agg, scalar_agg, mask_dict: MaskDict::new() }, shared }
    }

    /// Handles a request during the sum2 phase.
    pub fn handle_request(&mut self, req: StateMachineRequest) -> (r: Result<
        (),
        StateMachineError,
    >)
        requires
            old(self).sum2_inv(),
        ensures
            final(self).sum2_inv(),
            !(req is Sum2) ==> r == Err::<(), StateMachineError>(
                StateMachineError::MessageRejected,
            ) && *final(self) == *old(self),
            req is Sum2 ==> r == old(self).sum2_outcome(req->Sum2_0),
            req is Sum2 && r is Err ==> *final(self) == *old(self),
    {
        match req {
            StateMachineRequest::Sum2(sum2_req) => self.handle_sum2(sum2_req),
            _ => Err(StateMachineError::MessageRejected),
        }
    }

    /// Handles a sum2 request: a registered sum participant's mask object
    /// gains one vote; anyone else is rejected untouched.
    pub fn handle_sum2(&mut self, req: Sum2Request) -> (r: Result<(), StateMachineError>)
        requires
            old(self).sum2_inv(),
        ensures
            final(self).sum2_inv(),
            r == old(self).sum2_outcome(req),
            r is Err ==> *final(self) == *old(self),
            r is Ok ==> {
                &&& final(self).shared == old(self).shared
                &&& final(self).inner.sum_dict == old(self).inner.sum_dict
                &&& final(self).inner.model_agg == old(self).inner.model_agg
                &&& final(self).inner.scalar_agg == old(self).inner.scalar_agg
                &&& (crate::dicts::mask_dict_has(old(self).inner.mask_dict@, req.model_mask@)
                    ==> final(self).inner.mask_dict@ =~= old(self).inner.mask_dict@.update(
                    (choose|i: int|
                        0 <= i < old(self).inner.mask_dict@.len() && (#[trigger] old(
                            self,
                        ).inner.mask_dict@[i]).0 == req.model_mask@),
                    (req.model_mask@, (old(self).inner.mask_dict@[choose|i: int|
                        0 <= i < old(self).inner.mask_dict@.len() && (#[trigger] old(
                            self,
                        ).inner.mask_dict@[i]).0 == req.model_mask@].1 + 1) as nat),
                ))
                &&& (!crate::dicts::mask_dict_has(old(self).inner.mask_dict@, req.model_mask@)
                    ==> final(self).inner.mask_dict@ =~= old(self).inner.mask_dict@.push(
                    (req.model_mask@, 1nat),
                ))
            },
    {
        let Sum2Request { participant_pk, model_mask } = req;
        if !self.inner.sum_dict.contains_key(&participant_pk) {
            return Err(StateMachineError::MessageRejected);
        }
        let current = self.inner.mask_dict.count_of(&model_mask);
        if current >= usize::MAX {
            return Err(StateMachineError::MessageRejected);
        }
        proof {
            assert forall|i: int|
                0 <= i < self.inner.mask_dict@.len() && (#[trigger] self.inner.mask_dict@[i]).0
                    == model_mask@ implies self.inner.mask_dict@[i].1 < usize::MAX by {
                let c = choose|c: int|
                    0 <= c < self.inner.mask_dict@.len() && (
                    #[trigger] self.inner.mask_dict@[c]).0 == model_mask@;
                assert(i == c);
            }
        }
        self.inner.mask_dict.incr(model_mask);
        Ok(())
    }

    /// The sum2 quorum predicate: the most voted mask object has at least the
    /// required number of votes.
    pub open spec fn sum2_quorum(&self) -> bool {
        if self.inner.mask_dict@.len() == 0 {
            self.shared.min_sum2_count == 0
        } else {
            exists|i: int|
                0 <= i < self.inner.mask_dict@.len() && (#[trigger] self.inner.mask_dict@[i]).1
                    >= self.shared.min_sum2_count as nat
        }
    }

    /// Whether the sum2 quorum is met: some mask object has enough votes.
    pub fn has_enough_sum2s(&self) -> (r: bool)
        ensures
            r == self.sum2_quorum(),
    {
        let m = self.inner.mask_dict.max_count();
        m >= self.shared.min_sum2_count
    }

    /// What the phase decides at a tick, as in the update phase.
    pub fn next_step(&self, elapsed_secs: u64) -> (r: PhaseOutcome)
        ensures
            r is Transition <==> (elapsed_secs >= self.shared.min_sum2_time
                && self.sum2_quorum()),
            r is TimedOut <==> (elapsed_secs >= self.shared.max_sum2_time && !(elapsed_secs
                >= self.shared.min_sum2_time && self.sum2_quorum())),
    {
        if elapsed_secs >= self.shared.min_sum2_time && self.has_enough_sum2s() {
            PhaseOutcome::Transition
        } else if elapsed_secs >= self.shared.max_sum2_time {
            PhaseOutcome::TimedOut
        } else {
            PhaseOutcome::Pending
        }
    }
}

} // verus!
