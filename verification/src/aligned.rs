//! Submitting a proof to Aligned: the arguments, the decisions taken between
//! the network calls (fee, deposit, consent), and the batch inclusion record
//! saved once the proof is verified.
use vstd::prelude::*;
use crate::text::{append_chars, chars_of, decimal, decimal_chars, slice_chars, string_of};

verus! {

// ---------------------------------------------------------------------------
// Arguments
// ---------------------------------------------------------------------------

/// The network on which Aligned is used.
#[derive(Clone, Copy, Debug, PartialEq, Eq, Structural)]
pub enum NetworkArg {
    /// A local development network.
    Devnet,
    /// Holesky.
    Holesky,
    /// Holesky staging.
    HoleskyStage,
}

/// What the user asked for on the command line.
pub struct ProofArgs {
    /// Directory of the user's program.
    pub guest_path: String,
    /// Submit the proof to Aligned once generated.
    pub submit_to_aligned: bool,
    /// Keystore of the wallet that pays for the submission; `~/keystore`
    /// where none is given.
    pub keystore_path: Option<String>,
    /// URL of an Ethereum RPC node.
    pub rpc_url: String,
    /// The network on which Aligned is used.
    pub network: NetworkArg,
    /// Payment sent to the batcher to fund the submission, in wei.
    pub batcher_payment: u128,
    /// Enables zkVM acceleration through precompiles.
    pub precompiles: bool,
    /// Where the batch inclusion data is saved.
    pub batch_inclusion_data_directory_path: String,
    /// Where the proof data is saved.
    pub proof_data_directory_path: String,
    /// URL of the Aligned batcher.
    pub batcher_url: String,
    /// The most the user is willing to pay for the proof, in wei.
    pub max_fee: u128,
    /// Chain id of the Ethereum chain on which Aligned is deployed.
    pub chain_id: u64,
}

/// The keystore used where none is given.
pub const DEFAULT_KEYSTORE_PATH: &'static str = "~/keystore";

/// The most a user pays for a proof where they give no limit: 0.01 ether.
pub const DEFAULT_MAX_FEE: u128 = 10_000_000_000_000_000u128;

/// Chain id of the Ethereum chain on which Aligned is deployed, where none
/// is given.
pub const DEFAULT_CHAIN_ID: u64 = 1700u64;

/// Why a submission to Aligned stopped.
#[derive(Clone, Copy, Debug, PartialEq, Eq, Structural)]
pub enum SubmitFailure {
    /// The user would not deposit the missing funds.
    InsufficientBalance,
    /// The deposit to the batcher failed.
    DepositFailed,
    /// The user would not pay for the submission.
    Declined,
}

impl SubmitFailure {
    /// The message reported for this failure.
    pub fn message(&self) -> (r: &'static str)
        ensures
            r@ == match self {
                SubmitFailure::InsufficientBalance => "Insufficient user balance on Aligned"@,
                SubmitFailure::DepositFailed => "Failed to Deposit Funds into the Batcher"@,
                SubmitFailure::Declined => "User declined to pay submission cost"@,
            },
    {
        match self {
            SubmitFailure::InsufficientBalance => "Insufficient user balance on Aligned",
            SubmitFailure::DepositFailed => "Failed to Deposit Funds into the Batcher",
            SubmitFailure::Declined => "User declined to pay submission cost",
        }
    }
}

/// The keystore that pays for the submission: the one given, or
/// `~/keystore` where none is given.
pub fn keystore_path(args: &ProofArgs) -> (r: String)
    ensures
        args.keystore_path is None ==> r@ == DEFAULT_KEYSTORE_PATH@,
        args.keystore_path matches Some(p) ==> r@ == p@,
{
    match &args.keystore_path {
        Some(p) => String::from_str(p.as_str()),
        None => String::from_str(DEFAULT_KEYSTORE_PATH),
    }
}

// ---------------------------------------------------------------------------
// Amounts
// ---------------------------------------------------------------------------

/// An amount of wei: a 256-bit unsigned number in two 128-bit halves.
#[derive(Clone, Copy, Debug, PartialEq, Eq, Structural)]
pub struct Wei {
    /// The upper 128 bits.
    pub hi: u128,
    /// The lower 128 bits.
    pub lo: u128,
}

/// `2^128`.
pub open spec fn two_to_128() -> nat {
    u128::MAX as nat + 1
}

impl Wei {
    /// The amount.
    pub open spec fn value(self) -> nat {
        self.hi as nat * two_to_128() + self.lo as nat
    }

    /// The amount `v`, which fits in 128 bits.
    pub fn from_u128(v: u128) -> (r: Wei)
        ensures
            r.value() == v,
    {
        Wei { hi: 0, lo: v }
    }

    /// Is this amount smaller than `other`?
    pub fn lt(&self, other: &Wei) -> (r: bool)
        ensures
            r == (self.value() < other.value()),
    {
        proof {
            lemma_wei_order(*self, *other);
        }
        self.hi < other.hi || (self.hi == other.hi && self.lo < other.lo)
    }
}

/// Amounts compare by their upper halves first, then by their lower halves.
proof fn lemma_wei_order(a: Wei, b: Wei)
    ensures
        a.value() < b.value() <==> (a.hi < b.hi || (a.hi == b.hi && a.lo < b.lo)),
{
    let t = two_to_128();
    if a.hi < b.hi {
        assert(a.hi as nat * t + t <= b.hi as nat * t) by (nonlinear_arith)
            requires
                a.hi < b.hi,
        ;
    } else if a.hi > b.hi {
        assert(b.hi as nat * t + t <= a.hi as nat * t) by (nonlinear_arith)
            requires
                b.hi < a.hi,
        ;
    }
}

/// The lowest fee paid for a proof: 13,000 gas at 0.1 Gwei.
pub const MIN_FEE_PER_PROOF: u128 = 1_300_000_000_000u128;

/// The fee offered for a proof: the estimate, raised to the minimum fee
/// where it is below it, and lowered to the user's limit where it is above
/// that.
pub open spec fn offered_fee(estimate: nat, limit: nat) -> nat {
    let floored = if estimate < MIN_FEE_PER_PROOF {
        MIN_FEE_PER_PROOF as nat
    } else {
        estimate
    };
    if floored > limit {
        limit
    } else {
        floored
    }
}

/// The fee offered for a proof whose estimated fee is `estimate`, where the
/// user pays at most `limit` wei.
pub fn max_fee(estimate: Wei, limit: u128) -> (r: Wei)
    ensures
        r.value() == offered_fee(estimate.value(), limit as nat),
{
    let floor = Wei::from_u128(MIN_FEE_PER_PROOF);
    let floored = if estimate.lt(&floor) {
        floor
    } else {
        estimate
    };
    let cap = Wei::from_u128(limit);
    if cap.lt(&floored) {
        cap
    } else {
        floored
    }
}

// ---------------------------------------------------------------------------
// Decisions
// ---------------------------------------------------------------------------

/// Where a submission stands between two network calls.
#[derive(Clone, Copy, Debug, PartialEq, Eq, Structural)]
pub enum SubmitPhase {
    /// The fee and the user's balance on Aligned are known.
    Priced { fee: Wei, balance: Wei },
    /// The user was asked whether to deposit the fee.
    AwaitingDepositAnswer { fee: Wei },
    /// The deposit was sent.
    AwaitingDeposit { fee: Wei },
    /// The user was asked whether to pay the fee.
    AwaitingPayAnswer { fee: Wei },
    /// The proof was sent for verification.
    AwaitingSubmission { fee: Wei },
    /// The proof was verified; its batch inclusion data is to be saved.
    Done,
    /// The submission stopped.
    Failed { failure: SubmitFailure },
}

/// What happened since the last decision.
#[derive(Clone, Copy, Debug, PartialEq, Eq, Structural)]
pub enum SubmitEvent {
    /// Nothing yet: decide from the fee and the balance.
    Proceed,
    /// The user answered the question asked, yes or no.
    Answer(bool),
    /// The deposit finished, successfully or not.
    DepositFinished(bool),
    /// The proof was verified on Aligned.
    Submitted,
}

/// What is to be done next.
#[derive(Clone, Copy, Debug, PartialEq, Eq, Structural)]
pub enum SubmitAction {
    /// Ask whether to deposit `fee` into Aligned.
    AskDeposit { fee: Wei },
    /// Deposit `fee` into Aligned.
    Deposit { fee: Wei },
    /// Ask whether to pay `fee` for the submission.
    AskPay { fee: Wei },
    /// Submit the proof, paying at most `fee`.
    Submit { fee: Wei },
    /// Save the batch inclusion data.
    SaveResponse,
    /// Stop with the failure.
    Stop { failure: SubmitFailure },
    /// The event does not apply to the phase: nothing to do.
    Ignore,
}

/// The phase reached once the fee estimate and the balance are known, where
/// the user pays at most `limit` wei.
pub fn priced(estimate: Wei, balance: Wei, limit: u128) -> (r: SubmitPhase)
    ensures
        r matches SubmitPhase::Priced { fee, balance: b } && b == balance && fee.value()
            == offered_fee(estimate.value(), limit as nat),
{
    SubmitPhase::Priced { fee: max_fee(estimate, limit), balance }
}

/// The fee that a phase carries, if any.
pub open spec fn phase_fee(p: SubmitPhase) -> Option<Wei> {
    match p {
        SubmitPhase::Priced { fee, .. } => Some(fee),
        SubmitPhase::AwaitingDepositAnswer { fee } => Some(fee),
        SubmitPhase::AwaitingDeposit { fee } => Some(fee),
        SubmitPhase::AwaitingPayAnswer { fee } => Some(fee),
        SubmitPhase::AwaitingSubmission { fee } => Some(fee),
        _ => None,
    }
}

/// The fee that an action carries, if any.
pub open spec fn action_fee(a: SubmitAction) -> Option<Wei> {
    match a {
        SubmitAction::AskDeposit { fee } => Some(fee),
        SubmitAction::Deposit { fee } => Some(fee),
        SubmitAction::AskPay { fee } => Some(fee),
        SubmitAction::Submit { fee } => Some(fee),
        _ => None,
    }
}

/// A fee, where there is one, lies between `low` and `high`.
pub open spec fn fee_within(fee: Option<Wei>, low: nat, high: nat) -> bool {
    fee matches Some(f) ==> low <= f.value() <= high
}

/// The fee that a priced submission carries lies between the minimum fee
/// per proof (or the user's limit, where that is lower) and the user's limit.
pub proof fn lemma_offered_fee_bounds(estimate: nat, limit: nat)
    ensures
        offered_fee(estimate, limit) <= limit,
        offered_fee(estimate, limit) >= if limit < MIN_FEE_PER_PROOF {
            limit
        } else {
            MIN_FEE_PER_PROOF as nat
        },
{
}

/// The next phase and action of a submission: with a balance below the fee,
/// the user is asked to deposit it, and the submission stops if they decline
/// or the deposit fails; then the user is asked to pay the fee, and it stops
/// if they decline; then the proof is submitted, and its data saved once
/// verified. An event that does not apply leaves the phase as it is.
pub open spec fn submission_step_spec(phase: SubmitPhase, event: SubmitEvent) -> (
    SubmitPhase,
    SubmitAction,
) {
    match (phase, event) {
        (SubmitPhase::Priced { fee, balance }, SubmitEvent::Proceed) => if balance.value()
            < fee.value() {
            (SubmitPhase::AwaitingDepositAnswer { fee }, SubmitAction::AskDeposit { fee })
        } else {
            (SubmitPhase::AwaitingPayAnswer { fee }, SubmitAction::AskPay { fee })
        },
        (SubmitPhase::AwaitingDepositAnswer { fee }, SubmitEvent::Answer(yes)) => if yes {
            (SubmitPhase::AwaitingDeposit { fee }, SubmitAction::Deposit { fee })
        } else {
            (
                SubmitPhase::Failed { failure: SubmitFailure::InsufficientBalance },
                SubmitAction::Stop { failure: SubmitFailure::InsufficientBalance },
            )
        },
        (SubmitPhase::AwaitingDeposit { fee }, SubmitEvent::DepositFinished(ok)) => if ok {
            (SubmitPhase::AwaitingPayAnswer { fee }, SubmitAction::AskPay { fee })
        } else {
            (
                SubmitPhase::Failed { failure: SubmitFailure::DepositFailed },
                SubmitAction::Stop { failure: SubmitFailure::DepositFailed },
            )
        },
        (SubmitPhase::AwaitingPayAnswer { fee }, SubmitEvent::Answer(yes)) => if yes {
            (SubmitPhase::AwaitingSubmission { fee }, SubmitAction::Submit { fee })
        } else {
            (
                SubmitPhase::Failed { failure: SubmitFailure::Declined },
                SubmitAction::Stop { failure: SubmitFailure::Declined },
            )
        },
        (SubmitPhase::AwaitingSubmission { .. }, SubmitEvent::Submitted) => (
            SubmitPhase::Done,
            SubmitAction::SaveResponse,
        ),
        _ => (phase, SubmitAction::Ignore),
    }
}

/// The next phase and action of a submission, as `submission_step_spec`
/// gives them.
pub fn submission_step(phase: SubmitPhase, event: SubmitEvent) -> (r: (SubmitPhase, SubmitAction))
    ensures
        r == submission_step_spec(phase, event),
{
    match (phase, event) {
        (SubmitPhase::Priced { fee, balance }, SubmitEvent::Proceed) => {
            if balance.lt(&fee) {
                (SubmitPhase::AwaitingDepositAnswer { fee }, SubmitAction::AskDeposit { fee })
            } else {
                (SubmitPhase::AwaitingPayAnswer { fee }, SubmitAction::AskPay { fee })
            }
        },
        (SubmitPhase::AwaitingDepositAnswer { fee }, SubmitEvent::Answer(yes)) => {
            if yes {
                (SubmitPhase::AwaitingDeposit { fee }, SubmitAction::Deposit { fee })
            } else {
                (
                    SubmitPhase::Failed { failure: SubmitFailure::InsufficientBalance },
                    SubmitAction::Stop { failure: SubmitFailure::InsufficientBalance },
                )
            }
        },
        (SubmitPhase::AwaitingDeposit { fee }, SubmitEvent::DepositFinished(ok)) => {
            if ok {
                (SubmitPhase::AwaitingPayAnswer { fee }, SubmitAction::AskPay { fee })
            } else {
                (
                    SubmitPhase::Failed { failure: SubmitFailure::DepositFailed },
                    SubmitAction::Stop { failure: SubmitFailure::DepositFailed },
                )
            }
        },
        (SubmitPhase::AwaitingPayAnswer { fee }, SubmitEvent::Answer(yes)) => {
            if yes {
                (SubmitPhase::AwaitingSubmission { fee }, SubmitAction::Submit { fee })
            } else {
                (
                    SubmitPhase::Failed { failure: SubmitFailure::Declined },
                    SubmitAction::Stop { failure: SubmitFailure::Declined },
                )
            }
        },
        (SubmitPhase::AwaitingSubmission { .. }, SubmitEvent::Submitted) => {
            (SubmitPhase::Done, SubmitAction::SaveResponse)
        },
        _ => (phase, SubmitAction::Ignore),
    }
}

/// A proof is submitted only right after the user agreed to pay, and only
/// for the fee that was priced; a deposit is made only after the user agreed
/// to it, and once priced the user is asked to deposit exactly when the
/// balance is below the fee (and asked to pay otherwise). A step
/// keeps the fee: where the phase's fee lies between two bounds, so do the
/// next phase's and the action's, so no action ever asks for, deposits or pays
/// more than the user's limit.
pub proof fn lemma_submission_consent(phase: SubmitPhase, event: SubmitEvent, next: SubmitPhase, action: SubmitAction)
    requires
        (next, action) == submission_step_spec(phase, event),
    ensures
        action matches SubmitAction::Submit { fee } ==> phase == (SubmitPhase::AwaitingPayAnswer {
            fee,
        }) && event == SubmitEvent::Answer(true),
        action matches SubmitAction::Deposit { fee } ==> phase == (
        SubmitPhase::AwaitingDepositAnswer { fee }) && event == SubmitEvent::Answer(true),
        action matches SubmitAction::AskDeposit { fee } ==> (phase matches SubmitPhase::Priced {
            fee: f,
            balance,
        } && f == fee && balance.value() < fee.value()),
        phase matches SubmitPhase::Priced { fee, balance } ==> (event == SubmitEvent::Proceed
            ==> action == if balance.value() < fee.value() {
            SubmitAction::AskDeposit { fee }
        } else {
            SubmitAction::AskPay { fee }
        }),
        forall|low: nat, high: nat|
            fee_within(phase_fee(phase), low, high) ==> fee_within(phase_fee(next), low, high)
                && fee_within(action_fee(action), low, high),
{
}

/// The phase reached from `phase` after the events, in order.
pub open spec fn phase_after(phase: SubmitPhase, events: Seq<SubmitEvent>) -> SubmitPhase
    decreases events.len(),
{
    if events.len() == 0 {
        phase
    } else {
        phase_after(submission_step_spec(phase, events[0]).0, events.drop_first())
    }
}

/// Whatever events follow the pricing, no phase and no action ever carries a
/// fee above the user's limit: no question, deposit or payment asks for more
/// than the user is willing to pay. `start` is the phase that `priced` gives
/// for the estimate and the limit.
pub proof fn lemma_fee_never_above_limit(
    start: SubmitPhase,
    estimate: Wei,
    limit: u128,
    events: Seq<SubmitEvent>,
    event: SubmitEvent,
)
    requires
        start matches SubmitPhase::Priced { fee, .. } && fee.value() == offered_fee(
            estimate.value(),
            limit as nat,
        ),
    ensures
        fee_within(phase_fee(phase_after(start, events)), 0, limit as nat),
        fee_within(
            action_fee(submission_step_spec(phase_after(start, events), event).1),
            0,
            limit as nat,
        ),
{
    lemma_offered_fee_bounds(estimate.value(), limit as nat);
    lemma_fees_stay_within(start, events, event, 0, limit as nat);
}

/// Where a phase's fee lies between two bounds, so does the fee of every
/// phase reached from it, and of every action taken on the way.
pub proof fn lemma_fees_stay_within(
    phase: SubmitPhase,
    events: Seq<SubmitEvent>,
    event: SubmitEvent,
    low: nat,
    high: nat,
)
    requires
        fee_within(phase_fee(phase), low, high),
    ensures
        fee_within(phase_fee(phase_after(phase, events)), low, high),
        fee_within(action_fee(submission_step_spec(phase_after(phase, events), event).1), low, high),
    decreases events.len(),
{
    if events.len() == 0 {
        let (n, a) = submission_step_spec(phase, event);
        lemma_submission_consent(phase, event, n, a);
    } else {
        let (n, a) = submission_step_spec(phase, events[0]);
        lemma_submission_consent(phase, events[0], n, a);
        lemma_fees_stay_within(n, events.drop_first(), event, low, high);
    }
}

// ---------------------------------------------------------------------------
// Batch inclusion record
// ---------------------------------------------------------------------------

/// The lowercase hexadecimal digit of `n`, which is below 16.
pub open spec fn hex_digit(n: int) -> char {
    if n < 10 {
        (('0' as int) + n) as char
    } else {
        (('a' as int) + n - 10) as char
    }
}

/// Each byte as two lowercase hexadecimal digits, high half first.
pub open spec fn hex_lower(bytes: Seq<u8>) -> Seq<char>
    decreases bytes.len(),
{
    if bytes.len() == 0 {
        seq![]
    } else {
        seq![hex_digit(bytes[0] as int / 16), hex_digit(bytes[0] as int % 16)] + hex_lower(
            bytes.drop_first(),
        )
    }
}

/// Trusted: wraps `hex::encode`, which writes each byte as two lowercase
/// hexadecimal digits, high half first (the crate's documentation and its
/// `HEX_CHARS_LOWER` table).
#[verifier::external_body]
fn hex_encode(data: &[u8]) -> (r: String)
    ensures
        r@ == hex_lower(data@),
{
    hex::encode(data)
}

/// The hexadecimal text has two digits per byte.
pub proof fn lemma_hex_len(bytes: Seq<u8>)
    ensures
        hex_lower(bytes).len() == 2 * bytes.len(),
    decreases bytes.len(),
{
    if bytes.len() > 0 {
        lemma_hex_len(bytes.drop_first());
    }
}

/// What Aligned reports of a verified proof: its commitments, the batch it
/// was verified in, and where in that batch.
pub struct VerificationSummary {
    /// Commitment to the proof.
    pub proof_commitment: Vec<u8>,
    /// Commitment to the public input.
    pub pub_input_commitment: Vec<u8>,
    /// Commitment to the proving system's auxiliary data (the program id).
    pub proving_system_aux_data_commitment: Vec<u8>,
    /// Address of the proof's generator.
    pub proof_generator_addr: Vec<u8>,
    /// Merkle root of the batch.
    pub batch_merkle_root: Vec<u8>,
    /// Position of the proof in the batch.
    pub index_in_batch: usize,
    /// Merkle path from the proof's leaf to the root.
    pub merkle_path: Vec<Vec<u8>>,
}

/// The batch inclusion data that is saved, each field as text.
pub struct BatchInclusionRecord {
    /// Commitment to the proof, in hexadecimal.
    pub proof_commitment: String,
    /// Commitment to the public input, in hexadecimal.
    pub pub_input_commitment: String,
    /// Commitment to the program id, in hexadecimal.
    pub program_id_commitment: String,
    /// Address of the proof's generator, in hexadecimal.
    pub proof_generator_addr: String,
    /// Merkle root of the batch, in hexadecimal.
    pub batch_merkle_root: String,
    /// The public input, in hexadecimal.
    pub pub_input: String,
    /// Position of the proof in the batch.
    pub verification_data_batch_index: usize,
    /// The Merkle path, each node in hexadecimal, all concatenated.
    pub merkle_proof: String,
}

/// The nodes of a Merkle path in hexadecimal, concatenated.
pub open spec fn hex_path(path: Seq<Seq<u8>>) -> Seq<char>
    decreases path.len(),
{
    if path.len() == 0 {
        seq![]
    } else {
        hex_lower(path[0]) + hex_path(path.drop_first())
    }
}

/// The byte views of a vector of byte vectors.
pub open spec fn byte_views(v: Seq<Vec<u8>>) -> Seq<Seq<u8>> {
    v.map_values(|x: Vec<u8>| x@)
}

/// The Merkle path of a verified proof as one hexadecimal text.
pub fn merkle_proof_hex(path: &Vec<Vec<u8>>) -> (r: String)
    ensures
        r@ == hex_path(byte_views(path@)),
{
    let ghost all = byte_views(path@);
    let mut out: Vec<char> = Vec::new();
    let mut i: usize = 0;
    assert(all.skip(0) == all);
    while i < path.len()
        invariant
            i <= path.len(),
            all == byte_views(path@),
            out@ + hex_path(all.skip(i as int)) == hex_path(all),
        decreases path.len() - i,
    {
        let ghost rest = all.skip(i as int);
        assert(rest.drop_first() == all.skip(i + 1));
        assert(rest[0] == path@[i as int]@);
        let h = hex_encode(path[i].as_slice());
        append_chars(&mut out, &chars_of(h.as_str()));
        i += 1;
    }
    assert(all.skip(i as int).len() == 0);
    string_of(&out)
}

/// The batch inclusion data saved for a verified proof and its public input.
pub fn batch_inclusion_record(data: &VerificationSummary, pub_input: &[u8]) -> (r:
    BatchInclusionRecord)
    ensures
        r.proof_commitment@ == hex_lower(data.proof_commitment@),
        r.pub_input_commitment@ == hex_lower(data.pub_input_commitment@),
        r.program_id_commitment@ == hex_lower(data.proving_system_aux_data_commitment@),
        r.proof_generator_addr@ == hex_lower(data.proof_generator_addr@),
        r.batch_merkle_root@ == hex_lower(data.batch_merkle_root@),
        r.pub_input@ == hex_lower(pub_input@),
        r.verification_data_batch_index == data.index_in_batch,
        r.merkle_proof@ == hex_path(byte_views(data.merkle_path@)),
{
    BatchInclusionRecord {
        proof_commitment: hex_encode(data.proof_commitment.as_slice()),
        pub_input_commitment: hex_encode(data.pub_input_commitment.as_slice()),
        program_id_commitment: hex_encode(data.proving_system_aux_data_commitment.as_slice()),
        proof_generator_addr: hex_encode(data.proof_generator_addr.as_slice()),
        batch_merkle_root: hex_encode(data.batch_merkle_root.as_slice()),
        pub_input: hex_encode(pub_input),
        verification_data_batch_index: data.index_in_batch,
        merkle_proof: merkle_proof_hex(&data.merkle_path),
    }
}

/// The name of the file that holds a proof's batch inclusion data: the
/// first eight hexadecimal digits of the batch's Merkle root, `_`, the
/// proof's position in the batch, and `.json`.
pub open spec fn inclusion_file_name(root: Seq<u8>, index: nat) -> Seq<char> {
    hex_lower(root).take(8) + "_"@ + decimal(index) + ".json"@
}

/// The name of the file that holds the batch inclusion data of `data`, whose
/// Merkle root has the 32 bytes of a hash.
pub fn batch_inclusion_file_name(data: &VerificationSummary) -> (r: String)
    requires
        data.batch_merkle_root@.len() == 32,
    ensures
        r@ == inclusion_file_name(data.batch_merkle_root@, data.index_in_batch as nat),
{
    proof {
        lemma_hex_len(data.batch_merkle_root@);
    }
    let root = chars_of(hex_encode(data.batch_merkle_root.as_slice()).as_str());
    let mut name = slice_chars(&root, 0, 8);
    assert(name@ == hex_lower(data.batch_merkle_root@).take(8));
    append_chars(&mut name, &chars_of("_"));
    append_chars(&mut name, &decimal_chars(data.index_in_batch));
    append_chars(&mut name, &chars_of(".json"));
    string_of(&name)
}

} // verus!
