//! Event bus: a last-value cache of round artifacts.
//!
//! The owning task broadcasts snapshots; readers always see the latest
//! snapshot of each kind, never a partial mutation. Each broadcast leaves
//! every other snapshot untouched, so a snapshot stays visible exactly until
//! the next broadcast of its kind replaces it.

use crate::dicts::{SeedDict, SumDict};
use crate::preprocessor::RoundParameters;
use vstd::prelude::*;

verus! {

/// The phases of a round, in cycle order, and the two terminal states.
#[derive(Debug, Clone, Copy, PartialEq, Eq)]
pub enum PhaseName {
    Idle,
    Sum,
    Update,
    Sum2,
    Unmask,
    Error,
    Shutdown,
}

/// The latest snapshot of each event kind.
#[derive(Debug, Clone, PartialEq, Eq)]
pub struct Events {
    /// The phase the machine is in.
    pub phase: PhaseName,
    /// The parameters of the running round, once published.
    pub round_params: Option<RoundParameters>,
    /// The sum dictionary, once frozen and published.
    pub sum_dict: Option<SumDict>,
    /// The global seed dictionary, once published at update exit.
    pub seed_dict: Option<SeedDict>,
    /// The mask length, once published at update exit.
    pub mask_length: Option<usize>,
}

impl Events {
    /// Creates the cache with no snapshot published yet.
    pub fn new() -> (r: Self)
        ensures
            r.phase == PhaseName::Idle,
            r.round_params is None,
            r.sum_dict is None,
            r.seed_dict is None,
            r.mask_length is None,
    {
        Events {
            phase: PhaseName::Idle,
            round_params: None,
            sum_dict: None,
            seed_dict: None,
            mask_length: None,
        }
    }

    /// Publishes the phase; every other snapshot stays.
    pub fn broadcast_phase(&mut self, phase: PhaseName)
        ensures
            final(self).phase == phase,
            final(self).round_params == old(self).round_params,
            final(self).sum_dict == old(self).sum_dict,
            final(self).seed_dict == old(self).seed_dict,
            final(self).mask_length == old(self).mask_length,
    {
        self.phase = phase;
    }

    /// Publishes the round parameters; every other snapshot stays.
    pub fn broadcast_round_params(&mut self, params: RoundParameters)
        ensures
            final(self).round_params == Some(params),
            final(self).phase == old(self).phase,
            final(self).sum_dict == old(self).sum_dict,
            final(self).seed_dict == old(self).seed_dict,
            final(self).mask_length == old(self).mask_length,
    {
        self.round_params = Some(params);
    }

    /// Publishes the frozen sum dictionary; every other snapshot stays.
    pub fn broadcast_sum_dict(&mut self, dict: SumDict)
        ensures
            final(self).sum_dict == Some(dict),
            final(self).phase == old(self).phase,
            final(self).round_params == old(self).round_params,
            final(self).seed_dict == old(self).seed_dict,
            final(self).mask_length == old(self).mask_length,
    {
        self.sum_dict = Some(dict);
    }

    /// Publishes the global seed dictionary. After this returns, the seed
    /// dictionary snapshot is exactly the published one — and the getter
    /// returns it until another broadcast replaces it, since no other method
    /// touches it.
    pub fn broadcast_seed_dict(&mut self, dict: SeedDict)
        ensures
            final(self).seed_dict == Some(dict),
            final(self).phase == old(self).phase,
            final(self).round_params == old(self).round_params,
            final(self).sum_dict == old(self).sum_dict,
            final(self).mask_length == old(self).mask_length,
    {
        self.seed_dict = Some(dict);
    }

    /// Withdraws the dictionaries at a round boundary; the other snapshots stay.
    pub fn invalidate_dicts(&mut self)
        ensures
            final(self).sum_dict is None,
            final(self).seed_dict is None,
            final(self).phase == old(self).phase,
            final(self).round_params == old(self).round_params,
            final(self).mask_length == old(self).mask_length,
    {
        self.sum_dict = None;
        self.seed_dict = None;
    }

    /// Publishes the mask length; every other snapshot stays.
    pub fn broadcast_mask_length(&mut self, length: usize)
        ensures
            final(self).mask_length == Some(length),
            final(self).phase == old(self).phase,
            final(self).round_params == old(self).round_params,
            final(self).sum_dict == old(self).sum_dict,
            final(self).seed_dict == old(self).seed_dict,
    {
        self.mask_length = Some(length);
    }

    /// The latest phase snapshot.
    pub fn phase(&self) -> (r: PhaseName)
        ensures
            r == self.phase,
    {
        self.phase
    }

    /// The latest round parameters snapshot.
    pub fn round_params(&self) -> (r: &Option<RoundParameters>)
        ensures
            *r == self.round_params,
    {
        &self.round_params
    }

    /// The latest sum dictionary snapshot.
    pub fn sum_dict(&self) -> (r: &Option<SumDict>)
        ensures
            *r == self.sum_dict,
    {
        &self.sum_dict
    }

    /// The latest seed dictionary snapshot.
    pub fn seed_dict(&self) -> (r: &Option<SeedDict>)
        ensures
            *r == self.seed_dict,
    {
        &self.seed_dict
    }

    /// The latest mask length snapshot.
    pub fn mask_length(&self) -> (r: Option<usize>)
        ensures
            r == self.mask_length,
    {
        self.mask_length
    }
}

} // verus!
