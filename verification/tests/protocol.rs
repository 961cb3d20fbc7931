use ed25519_dalek::{Signer, SigningKey};
use xaynet::aggregation::{Aggregation, AggregationError};
use xaynet::bignum::num_from_u64;
use xaynet::dicts::{LocalSeedDict, SeedDict, SumDict};
use xaynet::events::{Events, PhaseName};
use xaynet::mask::{MaskConfig, MaskMany, MaskObject, MaskOne};
use xaynet::preprocessor::{
    is_eligible, Header, Payload, PreProcessorError, Ratio, RoundParameters, Sum,
    SumPreProcessorService,
};
use xaynet::state::{
    PhaseOutcome, PhaseState, StateMachine, StateMachineError, StateMachineRequest, Sum2Request,
    SumRequest, UpdateRequest,
};

fn config() -> MaskConfig {
    MaskConfig::from_u64(1u64 << 32)
}

fn num(x: u64) -> Vec<u8> {
    num_from_u64(x)
}

fn round_params() -> RoundParameters {
    RoundParameters {
        seed: vec![0xAA; 32],
        sum: Ratio { numer: 1, denom: 2 },
        update: Ratio { numer: 1, denom: 1 },
    }
}

fn shared() -> xaynet::state::Shared {
    xaynet::state::Shared {
        round_id: 0,
        round_params: round_params(),
        min_sum_count: 1,
        min_update_count: 1,
        min_sum2_count: 2,
        min_sum_time: 1,
        max_sum_time: 10,
        min_update_time: 1,
        max_update_time: 10,
        min_sum2_time: 1,
        max_sum2_time: 10,
        mask_config: config(),
        model_size: 4,
        events: Events::new(),
    }
}

fn summer_pk() -> Vec<u8> {
    vec![0x01; 32]
}

fn summer_ephm_pk() -> Vec<u8> {
    vec![0x02; 32]
}

fn updater_pk() -> Vec<u8> {
    vec![0x03; 32]
}

fn encrypted_seed() -> Vec<u8> {
    vec![0x05; 80]
}

fn frozen_sum_dict() -> SumDict {
    let mut d = SumDict::new();
    d.insert(summer_pk(), summer_ephm_pk());
    d
}

fn masked_model() -> MaskObject {
    MaskObject::new(
        MaskMany::new(config(), vec![num(0), num(0), num(0), num(0)]),
        MaskOne::new(config(), num(1)),
    )
}

fn masked_scalar() -> MaskObject {
    MaskObject::new(MaskMany::new(config(), vec![num(1)]), MaskOne::new(config(), num(1)))
}

fn update_phase() -> PhaseState<xaynet::state::Update> {
    let frozen = frozen_sum_dict();
    let seed_dict = SeedDict::prepopulated(&frozen);
    PhaseState::<xaynet::state::Update>::new(shared(), frozen, seed_dict)
}

fn update_request() -> UpdateRequest {
    let mut local = LocalSeedDict::new();
    local.insert(summer_pk(), encrypted_seed());
    UpdateRequest {
        participant_pk: updater_pk(),
        local_seed_dict: local,
        masked_model: masked_model(),
        masked_scalar: masked_scalar(),
    }
}

#[test]
fn update_to_sum2() {
    let mut phase = update_phase();
    assert_eq!(phase.updater_count(), 0);
    assert!(!phase.has_enough_updates());

    let response = phase.handle_request(StateMachineRequest::Update(update_request()));
    assert!(response.is_ok());
    assert_eq!(phase.updater_count(), 1);
    assert!(phase.has_enough_updates());

    let frozen = frozen_sum_dict();
    let machine = phase.next().unwrap();
    let sum2_state = match machine {
        StateMachine::Sum2(s) => s,
        _ => panic!("expected the sum2 phase"),
    };

    // the sum dict is carried over unchanged
    assert_eq!(sum2_state.inner.sum_dict(), &frozen);
    // with a single updater the aggregation holds exactly that masked model
    let aggregated: MaskObject = sum2_state.inner.aggregation().clone().into_mask_object();
    assert_eq!(aggregated, masked_model());
    assert!(sum2_state.inner.mask_dict().entries.is_empty());

    // the update phase broadcast the mask length and the global seed dict
    assert_eq!(sum2_state.shared.events.mask_length(), Some(4));
    let mut expected = SeedDict::new();
    expected.entries.push((summer_pk(), vec![(updater_pk(), encrypted_seed())]));
    assert_eq!(sum2_state.shared.events.seed_dict(), &Some(expected));
}

#[test]
fn invalid_local_seed_dict_mutates_nothing() {
    let mut phase = update_phase();
    let before = phase.clone();

    // the local seed dict misses the sum participant
    let mut req = update_request();
    req.local_seed_dict = LocalSeedDict::new();
    let response = phase.handle_request(StateMachineRequest::Update(req));
    assert_eq!(response.unwrap_err(), StateMachineError::InvalidLocalSeedDict);
    assert_eq!(phase, before);
    assert_eq!(phase.updater_count(), 0);
    assert_eq!(phase.inner.aggregation().count, 0);

    // a local seed dict for an unknown sum participant
    let mut local = LocalSeedDict::new();
    local.insert(vec![0x44; 32], encrypted_seed());
    let mut req = update_request();
    req.local_seed_dict = local;
    let response = phase.handle_request(StateMachineRequest::Update(req));
    assert_eq!(response.unwrap_err(), StateMachineError::InvalidLocalSeedDict);
    assert_eq!(phase, before);

    // a repeated updater
    let ok = phase.handle_request(StateMachineRequest::Update(update_request()));
    assert!(ok.is_ok());
    let after_first = phase.clone();
    let response = phase.handle_request(StateMachineRequest::Update(update_request()));
    assert_eq!(response.unwrap_err(), StateMachineError::InvalidLocalSeedDict);
    assert_eq!(phase, after_first);
}

#[test]
fn bad_aggregation_mutates_nothing() {
    let mut phase = update_phase();
    let before = phase.clone();

    // wrong vector length
    let mut req = update_request();
    req.masked_model = MaskObject::new(
        MaskMany::new(config(), vec![num(0)]),
        MaskOne::new(config(), num(1)),
    );
    let response = phase.handle_request(StateMachineRequest::Update(req));
    assert_eq!(response.unwrap_err(), StateMachineError::AggregationFailed);
    assert_eq!(phase, before);

    // wrong configuration on the scalar
    let mut req = update_request();
    req.masked_scalar = MaskObject::new(
        MaskMany::new(MaskConfig::from_u64(7), vec![num(1)]),
        MaskOne::new(MaskConfig::from_u64(7), num(1)),
    );
    let response = phase.handle_request(StateMachineRequest::Update(req));
    assert_eq!(response.unwrap_err(), StateMachineError::AggregationFailed);
    assert_eq!(phase, before);
}

#[test]
fn out_of_phase_message_is_rejected() {
    let mut phase = update_phase();
    let before = phase.clone();
    let req = StateMachineRequest::Sum(SumRequest {
        participant_pk: summer_pk(),
        ephm_pk: summer_ephm_pk(),
    });
    let response = phase.handle_request(req);
    assert_eq!(response.unwrap_err(), StateMachineError::MessageRejected);
    assert_eq!(phase, before);
}

#[test]
fn quorum_timing() {
    let mut phase = update_phase();
    // no quorum yet: pending inside the budget, timed out past it
    assert_eq!(phase.next_step(0), PhaseOutcome::Pending);
    assert_eq!(phase.next_step(5), PhaseOutcome::Pending);
    assert_eq!(phase.next_step(10), PhaseOutcome::TimedOut);
    // quorum met: transition only once the minimum window has passed
    phase.handle_request(StateMachineRequest::Update(update_request())).unwrap();
    assert_eq!(phase.next_step(0), PhaseOutcome::Pending);
    assert_eq!(phase.next_step(1), PhaseOutcome::Transition);
    assert_eq!(phase.next_step(10), PhaseOutcome::Transition);
}

#[test]
fn sum2_mode_selection() {
    let mut frozen = frozen_sum_dict();
    frozen.insert(vec![0x11; 32], vec![0x12; 32]);
    frozen.insert(vec![0x21; 32], vec![0x22; 32]);
    let mut phase = PhaseState::<xaynet::state::Sum2>::new(
        shared(),
        frozen,
        Aggregation::new(config(), 4),
        Aggregation::new(config(), 1),
    );

    let mask_a = masked_model();
    let mask_b = masked_scalar();
    for (pk, mask) in [
        (summer_pk(), mask_a.clone()),
        (vec![0x11; 32], mask_a.clone()),
        (vec![0x21; 32], mask_b.clone()),
    ] {
        let response = phase.handle_request(StateMachineRequest::Sum2(Sum2Request {
            participant_pk: pk,
            model_mask: mask,
        }));
        assert!(response.is_ok());
    }

    // a vote from an unregistered participant is rejected
    let response = phase.handle_request(StateMachineRequest::Sum2(Sum2Request {
        participant_pk: vec![0x77; 32],
        model_mask: mask_a.clone(),
    }));
    assert_eq!(response.unwrap_err(), StateMachineError::MessageRejected);

    // the first-seen object with the highest count wins
    let best = phase.inner.mask_dict().best_index().unwrap();
    assert_eq!(phase.inner.mask_dict().entries[best].0, mask_a);
    assert_eq!(phase.inner.mask_dict().entries[best].1, 2);
    assert_eq!(phase.inner.mask_dict().max_count(), 2);
    assert!(phase.has_enough_sum2s());
    assert_eq!(phase.next_step(1), PhaseOutcome::Transition);
}

#[test]
fn aggregation_is_commutative() {
    let u1 = masked_model();
    let mut u2 = masked_model();
    u2.vector = MaskMany::new(config(), vec![num(10), num(20), num(30), num(40)]);

    let mut first = Aggregation::new(config(), 4);
    first.validate_aggregation(&u1).unwrap();
    first.aggregate(u1.clone());
    first.validate_aggregation(&u2).unwrap();
    first.aggregate(u2.clone());

    let mut second = Aggregation::new(config(), 4);
    second.validate_aggregation(&u2).unwrap();
    second.aggregate(u2);
    second.validate_aggregation(&u1).unwrap();
    second.aggregate(u1);

    assert_eq!(first, second);
    assert_eq!(first.count, 2);
    let summed = first.into_mask_object();
    assert_eq!(summed.vector.data, vec![num(10), num(20), num(30), num(40)]);
    assert_eq!(summed.scalar.data, num(2));
}

#[test]
fn aggregation_validation_errors() {
    let agg = Aggregation::new(config(), 4);
    let other_cfg = MaskConfig::from_u64(7);

    let wrong_config = MaskObject::new(
        MaskMany::new(other_cfg.clone(), vec![num(0); 4]),
        MaskOne::new(other_cfg.clone(), num(1)),
    );
    assert_eq!(agg.validate_aggregation(&wrong_config).unwrap_err(), AggregationError::ConfigMismatch);

    let wrong_size = MaskObject::new(
        MaskMany::new(config(), vec![num(0); 3]),
        MaskOne::new(config(), num(1)),
    );
    assert_eq!(agg.validate_aggregation(&wrong_size).unwrap_err(), AggregationError::SizeMismatch);

    let invalid = MaskObject::new(
        MaskMany::new(config(), vec![num(1u64 << 33), num(0), num(0), num(0)]),
        MaskOne::new(config(), num(1)),
    );
    assert_eq!(agg.validate_aggregation(&invalid).unwrap_err(), AggregationError::InvalidObject);

    assert!(agg.validate_aggregation(&masked_model()).is_ok());
}

#[test]
fn events_keep_the_latest_snapshot() {
    let mut events = Events::new();
    assert_eq!(events.seed_dict(), &None);

    let first = SeedDict::prepopulated(&frozen_sum_dict());
    events.broadcast_seed_dict(first.clone());
    assert_eq!(events.seed_dict(), &Some(first.clone()));

    // unrelated broadcasts do not disturb the snapshot
    events.broadcast_mask_length(4);
    events.broadcast_phase(PhaseName::Sum2);
    assert_eq!(events.seed_dict(), &Some(first));
    assert_eq!(events.mask_length(), Some(4));
    assert_eq!(events.phase(), PhaseName::Sum2);

    // a new broadcast supersedes the old snapshot
    let second = SeedDict::new();
    events.broadcast_seed_dict(second.clone());
    assert_eq!(events.seed_dict(), &Some(second));
}

#[test]
fn sum_dict_last_write_wins() {
    let mut d = SumDict::new();
    d.insert(summer_pk(), vec![0x02; 32]);
    d.insert(summer_pk(), vec![0x09; 32]);
    assert_eq!(d.len(), 1);
    assert_eq!(d.get(&summer_pk()).unwrap(), vec![0x09; 32]);
    assert!(d.contains_key(&summer_pk()));
    assert!(!d.contains_key(&updater_pk()));
}

fn signed_sum_message(seed: &[u8]) -> (Header, Sum) {
    let sk = SigningKey::from_bytes(&[7u8; 32]);
    let pk = sk.verifying_key().to_bytes().to_vec();
    let mut msg = seed.to_vec();
    msg.extend(b"sum");
    let sig = sk.sign(&msg).to_bytes().to_vec();
    (
        Header { participant_pk: pk },
        Sum { sum_signature: sig, ephm_pk: vec![0x02; 32] },
    )
}

#[test]
fn sum_preprocessor_accepts_a_valid_eligible_request() {
    let params = RoundParameters {
        seed: vec![0xAA; 32],
        sum: Ratio { numer: 1, denom: 1 },
        update: Ratio { numer: 1, denom: 1 },
    };
    let (header, message) = signed_sum_message(&params.seed);
    let mut service = SumPreProcessorService;
    let accepted = service.call(header.clone(), message.clone(), params).unwrap();
    assert_eq!(accepted.header, header);
    assert_eq!(accepted.payload, Payload::Sum(message));
}

#[test]
fn sum_preprocessor_rejects_a_bad_signature() {
    let params = RoundParameters {
        seed: vec![0xAA; 32],
        sum: Ratio { numer: 1, denom: 1 },
        update: Ratio { numer: 1, denom: 1 },
    };
    let (header, mut message) = signed_sum_message(&params.seed);
    message.sum_signature[0] ^= 1;
    let mut service = SumPreProcessorService;
    let response = service.call(header, message, params);
    assert_eq!(response.unwrap_err(), PreProcessorError::InvalidSumSignature);
}

#[test]
fn sum_preprocessor_rejects_an_ineligible_participant() {
    let params = RoundParameters {
        seed: vec![0xAA; 32],
        sum: Ratio { numer: 0, denom: 1 },
        update: Ratio { numer: 1, denom: 1 },
    };
    let (header, message) = signed_sum_message(&params.seed);
    // the signature's uniform value is nonzero, so a zero ratio excludes it
    assert!(message.sum_signature[..8].iter().any(|b| *b != 0));
    let mut service = SumPreProcessorService;
    let response = service.call(header, message, params);
    assert_eq!(response.unwrap_err(), PreProcessorError::NotSumEligible);
}

#[test]
fn update_with_empty_sum_dict() {
    // a degenerate round without sum participants still accepts updates; the
    // seed dictionary stays empty while the aggregation advances
    let frozen = SumDict::new();
    let seed_dict = SeedDict::prepopulated(&frozen);
    let mut phase = PhaseState::<xaynet::state::Update>::new(shared(), frozen, seed_dict);
    let mut req = update_request();
    req.local_seed_dict = LocalSeedDict::new();
    assert!(phase.handle_request(StateMachineRequest::Update(req)).is_ok());
    assert_eq!(phase.updater_count(), 0);
    assert_eq!(phase.inner.aggregation().count, 1);
}

#[test]
fn seed_dict_inner_maps_stay_identical() {
    let mut frozen = SumDict::new();
    frozen.insert(summer_pk(), summer_ephm_pk());
    frozen.insert(vec![0x11; 32], vec![0x12; 32]);
    let seed_dict = SeedDict::prepopulated(&frozen);
    let mut phase = PhaseState::<xaynet::state::Update>::new(shared(), frozen, seed_dict);

    for updater in [vec![0x31; 32], vec![0x32; 32], vec![0x33; 32]] {
        let mut local = LocalSeedDict::new();
        // the arrival order of the local pairs need not match the sum dict
        local.insert(vec![0x11; 32], vec![0x06; 80]);
        local.insert(summer_pk(), encrypted_seed());
        let req = UpdateRequest {
            participant_pk: updater,
            local_seed_dict: local,
            masked_model: masked_model(),
            masked_scalar: masked_scalar(),
        };
        assert!(phase.handle_request(StateMachineRequest::Update(req)).is_ok());
    }

    assert_eq!(phase.updater_count(), 3);
    let entries = &phase.inner.seed_dict().entries;
    assert_eq!(entries.len(), 2);
    let keys_of = |inner: &Vec<(Vec<u8>, Vec<u8>)>| -> Vec<Vec<u8>> {
        inner.iter().map(|p| p.0.clone()).collect()
    };
    // every inner dictionary holds the same updaters in the same order, one
    // seed each
    assert_eq!(keys_of(&entries[0].1), keys_of(&entries[1].1));
    assert_eq!(entries[0].1.len(), 3);
    assert_eq!(entries[1].1.len(), 3);
    // each summer received the seed addressed to it
    assert_eq!(entries[0].1[0].1, encrypted_seed());
    assert_eq!(entries[1].1[0].1, vec![0x06; 80]);
}

#[test]
fn eligibility_boundaries() {
    let zero_sig = vec![0u8; 64];
    // uniform value zero is eligible even for a zero ratio
    assert!(is_eligible(&zero_sig, &Ratio { numer: 0, denom: 1 }));
    let mut one_sig = vec![0u8; 64];
    one_sig[0] = 1;
    assert!(!is_eligible(&one_sig, &Ratio { numer: 0, denom: 1 }));
    // every signature is eligible for the full ratio
    assert!(is_eligible(&vec![0xFF; 64], &Ratio { numer: 1, denom: 1 }));
}
