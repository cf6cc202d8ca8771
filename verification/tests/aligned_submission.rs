use zkrust::aligned::{
    batch_inclusion_file_name, batch_inclusion_record, keystore_path, max_fee, merkle_proof_hex,
    priced, submission_step, NetworkArg, ProofArgs, SubmitAction, SubmitEvent, SubmitFailure,
    SubmitPhase, VerificationSummary, Wei, DEFAULT_CHAIN_ID, DEFAULT_KEYSTORE_PATH,
    DEFAULT_MAX_FEE, MIN_FEE_PER_PROOF,
};

fn args(keystore: Option<&str>) -> ProofArgs {
    ProofArgs {
        guest_path: "./examples/fibonacci".to_string(),
        submit_to_aligned: true,
        keystore_path: keystore.map(|s| s.to_string()),
        rpc_url: "https://ethereum-holesky-rpc.publicnode.com".to_string(),
        network: NetworkArg::Holesky,
        batcher_payment: 4000000000000000,
        precompiles: false,
        batch_inclusion_data_directory_path: "./aligned_verification_data/".to_string(),
        proof_data_directory_path: "./proof_data".to_string(),
        batcher_url: "wss://batcher.alignedlayer.com".to_string(),
        max_fee: DEFAULT_MAX_FEE,
        chain_id: DEFAULT_CHAIN_ID,
    }
}

#[test]
fn keystore_defaults_to_home() {
    assert_eq!(DEFAULT_KEYSTORE_PATH, "~/keystore");
    assert_eq!(keystore_path(&args(None)), "~/keystore");
    assert_eq!(keystore_path(&args(Some("/k.json"))), "/k.json");
    assert_eq!(SubmitFailure::Declined.message(), "User declined to pay submission cost");
}

#[test]
fn defaults_of_the_arguments() {
    assert_eq!(DEFAULT_MAX_FEE, 10u128.pow(16));
    assert_eq!(DEFAULT_CHAIN_ID, 1700);
}

#[test]
fn fee_never_below_minimum() {
    assert_eq!(MIN_FEE_PER_PROOF, 13_000 * 100_000_000);
    let limit = DEFAULT_MAX_FEE;
    assert_eq!(max_fee(Wei::from_u128(5), limit), Wei::from_u128(MIN_FEE_PER_PROOF));
    assert_eq!(
        max_fee(Wei::from_u128(MIN_FEE_PER_PROOF + 1), limit),
        Wei::from_u128(MIN_FEE_PER_PROOF + 1)
    );
    let big = Wei { hi: 1, lo: 0 };
    assert_eq!(max_fee(big, u128::MAX), Wei::from_u128(u128::MAX));
    assert!(Wei { hi: 0, lo: u128::MAX }.lt(&big));
    assert!(!big.lt(&Wei { hi: 0, lo: u128::MAX }));
}

#[test]
fn fee_never_above_limit() {
    let limit = DEFAULT_MAX_FEE;
    assert_eq!(max_fee(Wei::from_u128(limit + 1), limit), Wei::from_u128(limit));
    assert_eq!(max_fee(Wei { hi: 7, lo: 0 }, limit), Wei::from_u128(limit));
    assert_eq!(max_fee(Wei::from_u128(limit), limit), Wei::from_u128(limit));
    // A limit below the minimum fee wins over the minimum.
    assert_eq!(max_fee(Wei::from_u128(1), 1000), Wei::from_u128(1000));
    let p = priced(Wei::from_u128(limit * 3), Wei::from_u128(0), limit);
    let (p, a) = submission_step(p, SubmitEvent::Proceed);
    assert_eq!(a, SubmitAction::AskDeposit { fee: Wei::from_u128(limit) });
    let (p, a) = submission_step(p, SubmitEvent::Answer(true));
    assert_eq!(a, SubmitAction::Deposit { fee: Wei::from_u128(limit) });
    let (p, a) = submission_step(p, SubmitEvent::DepositFinished(true));
    assert_eq!(a, SubmitAction::AskPay { fee: Wei::from_u128(limit) });
    let (_, a) = submission_step(p, SubmitEvent::Answer(true));
    assert_eq!(a, SubmitAction::Submit { fee: Wei::from_u128(limit) });
}

#[test]
fn submission_with_deposit() {
    let fee = Wei::from_u128(MIN_FEE_PER_PROOF);
    let p = priced(Wei::from_u128(1), Wei::from_u128(0), DEFAULT_MAX_FEE);
    assert_eq!(p, SubmitPhase::Priced { fee, balance: Wei::from_u128(0) });
    let (p, a) = submission_step(p, SubmitEvent::Proceed);
    assert_eq!(a, SubmitAction::AskDeposit { fee });
    let (p, a) = submission_step(p, SubmitEvent::Answer(true));
    assert_eq!(a, SubmitAction::Deposit { fee });
    let (p, a) = submission_step(p, SubmitEvent::DepositFinished(true));
    assert_eq!(a, SubmitAction::AskPay { fee });
    let (p, a) = submission_step(p, SubmitEvent::Answer(true));
    assert_eq!(a, SubmitAction::Submit { fee });
    let (p, a) = submission_step(p, SubmitEvent::Submitted);
    assert_eq!((p, a), (SubmitPhase::Done, SubmitAction::SaveResponse));
}

#[test]
fn submission_stops_without_consent() {
    let rich = priced(Wei::from_u128(MIN_FEE_PER_PROOF * 2), Wei::from_u128(u128::MAX), DEFAULT_MAX_FEE);
    let (p, a) = submission_step(rich, SubmitEvent::Proceed);
    assert!(matches!(a, SubmitAction::AskPay { .. }));
    let (p2, a2) = submission_step(p, SubmitEvent::Answer(false));
    assert_eq!(a2, SubmitAction::Stop { failure: SubmitFailure::Declined });
    assert_eq!(p2, SubmitPhase::Failed { failure: SubmitFailure::Declined });

    let poor = priced(Wei::from_u128(1), Wei::from_u128(1), DEFAULT_MAX_FEE);
    let (p, _) = submission_step(poor, SubmitEvent::Proceed);
    let (_, a) = submission_step(p, SubmitEvent::Answer(false));
    assert_eq!(a, SubmitAction::Stop { failure: SubmitFailure::InsufficientBalance });
    let (p, _) = submission_step(p, SubmitEvent::Answer(true));
    let (_, a) = submission_step(p, SubmitEvent::DepositFinished(false));
    assert_eq!(a, SubmitAction::Stop { failure: SubmitFailure::DepositFailed });
    // An answer before any question changes nothing.
    assert_eq!(submission_step(poor, SubmitEvent::Answer(true)), (poor, SubmitAction::Ignore));
}

fn summary() -> VerificationSummary {
    let mut root = vec![0x12u8, 0x34, 0x56, 0x78, 0x9a];
    root.resize(32, 0);
    VerificationSummary {
        proof_commitment: vec![0xab, 0x01],
        pub_input_commitment: vec![0x00, 0xff],
        proving_system_aux_data_commitment: vec![0x10],
        proof_generator_addr: vec![0xde, 0xad],
        batch_merkle_root: root,
        index_in_batch: 1234,
        merkle_path: vec![vec![0x01, 0x02], vec![0xfe]],
    }
}

#[test]
fn batch_inclusion_data() {
    let d = summary();
    let r = batch_inclusion_record(&d, &[0xc0, 0xde]);
    assert_eq!(r.proof_commitment, "ab01");
    assert_eq!(r.pub_input_commitment, "00ff");
    assert_eq!(r.program_id_commitment, "10");
    assert_eq!(r.proof_generator_addr, "dead");
    assert_eq!(r.batch_merkle_root, hex_of(&d.batch_merkle_root));
    assert_eq!(r.pub_input, "c0de");
    assert_eq!(r.verification_data_batch_index, 1234);
    assert_eq!(r.merkle_proof, "0102fe");
    assert_eq!(merkle_proof_hex(&vec![]), "");
}

fn hex_of(b: &[u8]) -> String {
    b.iter().map(|x| format!("{:02x}", x)).collect()
}

#[test]
fn batch_inclusion_file() {
    let mut d = summary();
    assert_eq!(batch_inclusion_file_name(&d), "12345678_1234.json");
    d.index_in_batch = 0;
    assert_eq!(batch_inclusion_file_name(&d), "12345678_0.json");
}
