//! Round parameters and the sum message pre-processor.
//!
//! A pre-processor performs the sanity and eligibility checks on an inbound
//! message before the state machine sees it: it verifies the participant's
//! task signature and its eligibility for the task. Pre-processors are pure;
//! they never mutate coordinator state.

use crate::bignum::{copy_bytes, le_val};
use vstd::prelude::*;

use ed25519_dalek::Verifier;

verus! {

/// A task fraction in (0, 1], held as an exact rational.
#[derive(Debug, Clone, Copy, PartialEq, Eq)]
pub struct Ratio {
    pub numer: u64,
    pub denom: u64,
}

impl Ratio {
    /// The denominator is positive and the fraction is at most one.
    pub open spec fn wf(&self) -> bool {
        self.denom >= 1 && self.numer <= self.denom
    }
}

/// The parameters of one round, immutable within it.
#[derive(Debug, Clone, PartialEq, Eq)]
pub struct RoundParameters {
    /// Fresh random bytes drawn at the round's start.
    pub seed: Vec<u8>,
    /// The fraction of participants selected for the sum task.
    pub sum: Ratio,
    /// The fraction of participants selected for the update task.
    pub update: Ratio,
}

impl RoundParameters {
    /// The seed has its fixed length and the fractions are well formed.
    pub open spec fn wf(&self) -> bool {
        self.seed@.len() == 32 && self.sum.wf() && self.update.wf()
    }
}

/// The header common to all protocol messages: who sent it.
#[derive(Debug, Clone, PartialEq, Eq)]
pub struct Header {
    pub participant_pk: Vec<u8>,
}

/// A sum message: the task signature and the ephemeral encryption key the
/// participant offers for seed encryption.
#[derive(Debug, Clone, PartialEq, Eq)]
pub struct Sum {
    pub sum_signature: Vec<u8>,
    pub ephm_pk: Vec<u8>,
}

/// The payload of an accepted message.
#[derive(Debug, Clone, PartialEq, Eq)]
pub enum Payload {
    Sum(Sum),
}

/// An accepted message, ready for the state machine.
#[derive(Debug, Clone, PartialEq, Eq)]
pub struct Message {
    pub header: Header,
    pub payload: Payload,
}

/// Errors of the pre-processors.
#[derive(Debug, Clone, Copy, PartialEq, Eq)]
pub enum PreProcessorError {
    InvalidSumSignature,
    InvalidUpdateSignature,
    NotSumEligible,
    NotUpdateEligible,
    UnknownSumParticipant,
}

/// The outcome of pre-processing: the accepted message or the exact error.
pub type PreProcessorResponse = Result<Message, PreProcessorError>;

/// Whether the Ed25519 signature `sig` by the key `pk` over `msg` verifies.
pub uninterp spec fn ed25519_verifies(pk: Seq<u8>, msg: Seq<u8>, sig: Seq<u8>) -> bool;

/// Relies on ed25519_dalek::VerifyingKey::verify (with VerifyingKey::from_bytes
/// and Signature::from_bytes): Ed25519 verification is a deterministic function
/// of the key bytes, the message and the signature bytes, and a byte string
/// that is not a valid public key verifies nothing.
#[verifier::external_body]
fn ed25519_verify(pk: &Vec<u8>, msg: &Vec<u8>, sig: &Vec<u8>) -> (r: bool)
    requires
        pk@.len() == 32,
        sig@.len() == 64,
    ensures
        r == ed25519_verifies(pk@, msg@, sig@),
{
    let pk_arr: [u8; 32] = match pk.as_slice().try_into() {
        Ok(a) => a,
        Err(_) => return false,
    };
    let sig_arr: [u8; 64] = match sig.as_slice().try_into() {
        Ok(a) => a,
        Err(_) => return false,
    };
    let key = match ed25519_dalek::VerifyingKey::from_bytes(&pk_arr) {
        Ok(k) => k,
        Err(_) => return false,
    };
    let signature = ed25519_dalek::Signature::from_bytes(&sig_arr);
    key.verify(msg.as_slice(), &signature).is_ok()
}

/// The fixed byte string "sum" appended to the seed for sum task signatures.
pub open spec fn sum_tag() -> Seq<u8> {
    seq![115u8, 117u8, 109u8]
}

/// The uniform value a signature maps to: its first eight bytes read as a
/// little-endian number, a fraction of 2^64. The mapping is deterministic, so
/// coordinator and participant agree on it.
pub open spec fn sig_uniform(sig: Seq<u8>) -> nat {
    le_val(sig.subrange(0, 8))
}

/// Eligibility: the signature's uniform value, as a fraction of 2^64, is at
/// most the task ratio.
pub open spec fn sig_is_eligible(sig: Seq<u8>, r: Ratio) -> bool {
    sig_uniform(sig) * (r.denom as nat) <= (r.numer as nat) * 0x10000000000000000
}

/// Computes eligibility of a signature for a task ratio.
pub fn is_eligible(sig: &Vec<u8>, r: &Ratio) -> (b: bool)
    requires
        sig@.len() >= 8,
        r.wf(),
    ensures
        b == sig_is_eligible(sig@, *r),
{
    let mut x: u64 = 0;
    let mut j: usize = 8;
    proof {
        assert(sig@.subrange(8, 8) =~= Seq::<u8>::empty());
    }
    while j > 0
        invariant
            j <= 8,
            sig@.len() >= 8,
            x as nat == le_val(sig@.subrange(j as int, 8)),
        decreases j,
    {
        proof {
            crate::bignum::lemma_le_val_bound(sig@.subrange(j as int, 8));
            assert(crate::bignum::pow256(0) == 1);
            assert(crate::bignum::pow256(1) == 256);
            assert(crate::bignum::pow256(2) == 0x10000);
            assert(crate::bignum::pow256(3) == 0x1000000);
            assert(crate::bignum::pow256(4) == 0x100000000);
            assert(crate::bignum::pow256(5) == 0x10000000000);
            assert(crate::bignum::pow256(6) == 0x1000000000000);
            assert(crate::bignum::pow256(7) == 0x100000000000000);
            crate::bignum::lemma_pow256_increases((8 - j) as nat, 7);
        }
        j = j - 1;
        x = x * 256 + (sig[j] as u64);
        proof {
            assert(le_val(sig@.subrange(j as int, 8)) == sig@[j as int] as nat + 256 * le_val(
                sig@.subrange(j as int, 8).subrange(1, 8 - j as int),
            ));
            assert(sig@.subrange(j as int, 8).subrange(1, 8 - j as int) =~= sig@.subrange(
                j + 1,
                8,
            ));
        }
    }
    proof {
        assert((x as int) * (r.denom as int) <= 0xffffffffffffffff * 0xffffffffffffffff)
            by (nonlinear_arith)
            requires
                0 <= x as int <= 0xffffffffffffffff,
                0 <= r.denom as int <= 0xffffffffffffffff,
        ;
        assert((r.numer as int) * 0x10000000000000000 <= 0xffffffffffffffff * 0x10000000000000000)
            by (nonlinear_arith)
            requires
                0 <= r.numer as int <= 0xffffffffffffffff,
        ;
        assert(sig@.subrange(0, 8) == sig@.subrange(0, 8));
    }
    let lhs: u128 = (x as u128) * (r.denom as u128);
    let rhs: u128 = (r.numer as u128) * 0x10000000000000000u128;
    lhs <= rhs
}

/// A service for performing sanity checks and preparing a sum request to be
/// handled by the state machine: it verifies the participant's eligibility
/// for the sum task.
#[derive(Debug, Clone, PartialEq, Eq)]
pub struct SumPreProcessorService;

impl SumPreProcessorService {
    /// Runs the sum pre-processor on one request.
    pub fn call(&mut self, header: Header, message: Sum, params: RoundParameters) -> (r:
        PreProcessorResponse)
        requires
            header.participant_pk@.len() == 32,
            message.sum_signature@.len() == 64,
            params.wf(),
        ensures
            r == (SumPreProcessor { header, message, params }).outcome(),
    {
        let pre_processor = SumPreProcessor { header, message, params };
        pre_processor.call()
    }
}

/// One sum request with the round parameters it is judged against.
pub struct SumPreProcessor {
    pub header: Header,
    pub message: Sum,
    pub params: RoundParameters,
}

impl SumPreProcessor {
    /// The shapes the checks need.
    pub open spec fn wf(&self) -> bool {
        &&& self.header.participant_pk@.len() == 32
        &&& self.message.sum_signature@.len() == 64
        &&& self.params.wf()
    }

    /// The signature the participant must have produced: over the round seed
    /// followed by the sum task tag.
    pub open spec fn signature_holds(&self) -> bool {
        ed25519_verifies(
            self.header.participant_pk@,
            self.params.seed@ + sum_tag(),
            self.message.sum_signature@,
        )
    }

    /// The exact outcome of the pre-processor on this request.
    pub open spec fn outcome(&self) -> PreProcessorResponse {
        if !self.signature_holds() {
            Err(PreProcessorError::InvalidSumSignature)
        } else if !sig_is_eligible(self.message.sum_signature@, self.params.sum) {
            Err(PreProcessorError::NotSumEligible)
        } else {
            Ok(
                Message {
                    header: self.header,
                    payload: Payload::Sum(self.message),
                },
            )
        }
    }

    /// Checks the signature, checks eligibility, and hands the message on.
    pub fn call(self) -> (r: PreProcessorResponse)
        requires
            self.wf(),
        ensures
            r == self.outcome(),
    {
        if !self.has_valid_sum_signature() {
            return Err(PreProcessorError::InvalidSumSignature);
        }
        if !self.is_eligible_for_sum_task() {
            return Err(PreProcessorError::NotSumEligible);
        }
        let Self { header, message, .. } = self;
        Ok(Message { header, payload: Payload::Sum(message) })
    }

    /// Checks whether this request contains a valid sum signature.
    pub fn has_valid_sum_signature(&self) -> (r: bool)
        requires
            self.wf(),
        ensures
            r == self.signature_holds(),
    {
        let mut msg = copy_bytes(&self.params.seed);
        msg.push(115u8);
        msg.push(117u8);
        msg.push(109u8);
        proof {
            assert(msg@ =~= self.params.seed@ + sum_tag());
        }
        ed25519_verify(&self.header.participant_pk, &msg, &self.message.sum_signature)
    }

    /// Checks whether this request comes from a participant that is eligible
    /// for the sum task.
    pub fn is_eligible_for_sum_task(&self) -> (r: bool)
        requires
            self.wf(),
        ensures
            r == sig_is_eligible(self.message.sum_signature@, self.params.sum),
    {
        is_eligible(&self.message.sum_signature, &self.params.sum)
    }
}

} // verus!
