//! Proofs under an attested Merkle root: checking a slot's messages against
//! the root, building the inclusion proof of each message, and packing
//! proven messages into update data, one blob per attestation.

use crate::bytes::{
    byte_strings, copy_bytes, insertion_point, lemma_insert_key, lemma_insertion_point,
    lemma_lex_less_total, lemma_strictly_increasing_distinct, lemma_strictly_increasing_unique,
    lex_less, rank_bytes, same_as_array, strictly_increasing, Rank,
};
use crate::merkle::{
    accumulated, merkle_from_set, merkle_path, merkle_prove, merkle_root, merkle_root_of,
    MerklePath, NodeHash,
};
use crate::wire::{
    accumulator_update_layout, counts_fit, lemma_message_layout_len, message_layout, update_bytes,
    wire_accumulator_update, wire_message, MerklePriceUpdate, Message, UpdateBytes,
};
use vstd::prelude::*;

verus! {

/// The root that the guardians attested for one slot.
#[derive(Clone, Copy, Debug, PartialEq, Eq)]
pub struct WormholeMerkleRoot {
    pub slot: u64,
    pub ring_size: u32,
    pub root: NodeHash,
}

/// An attested root together with the signed envelope that carries it.
#[derive(Debug, PartialEq, Eq)]
pub struct WormholeMerkleState {
    pub root: WormholeMerkleRoot,
    pub vaa: Vec<u8>,
}

/// What proves one message: the envelope and the message's inclusion path
/// under the root that the envelope attests.
#[derive(Debug, PartialEq, Eq)]
pub struct WormholeMerkleMessageProof {
    pub vaa: Vec<u8>,
    pub proof: MerklePath,
}

/// The raw messages that the oracle network committed in one slot.
#[derive(Debug, PartialEq, Eq)]
pub struct AccumulatorMessages {
    pub magic: [u8; 4],
    pub slot: u64,
    pub ring_size: u32,
    pub raw_messages: Vec<Vec<u8>>,
}

/// What is known of one slot while its parts arrive.
#[derive(Debug, PartialEq, Eq)]
pub struct AccumulatorState {
    pub slot: u64,
    pub accumulator_messages: Option<AccumulatorMessages>,
    pub wormhole_merkle_state: Option<WormholeMerkleState>,
}

/// A slot of which both the messages and the attestation have arrived.
#[derive(Debug, PartialEq, Eq)]
pub struct CompletedAccumulatorState {
    pub slot: u64,
    pub accumulator_messages: AccumulatorMessages,
    pub wormhole_merkle_state: WormholeMerkleState,
}

/// The proofs that a message carries.
#[derive(Debug, PartialEq, Eq)]
pub struct ProofSet {
    pub wormhole_merkle_proof: WormholeMerkleMessageProof,
}

/// One ingested message with its proofs.
#[derive(Debug, PartialEq, Eq)]
pub struct MessageState {
    pub slot: u64,
    pub message: Message,
    pub proof_set: ProofSet,
    pub received_at: i64,
}

/// Why proofs or update data could not be built.
#[derive(Clone, Copy, Debug, PartialEq, Eq, Structural)]
pub enum ProofError {
    /// The root computed over the messages is not the attested one.
    InvalidMerkleRoot,
    /// The tree gave no path for one of its own messages.
    FailedToProveMessage,
    /// A message could not be put into binary form.
    FailedToSerializeMessage,
    /// An attestation, its number of messages, or a path is too long for the
    /// wire format.
    FailedToSerializeUpdate,
}

impl ProofError {
    /// A description for logs.
    pub fn message(&self) -> (text: String)
        ensures
            text@ == match *self {
                ProofError::InvalidMerkleRoot => "Invalid merkle root"@,
                ProofError::FailedToProveMessage => "Failed to prove message"@,
                ProofError::FailedToSerializeMessage => "Failed to serialize message"@,
                ProofError::FailedToSerializeUpdate => "Failed to serialize update data"@,
            },
    {
        match self {
            ProofError::InvalidMerkleRoot => "Invalid merkle root".to_owned(),
            ProofError::FailedToProveMessage => "Failed to prove message".to_owned(),
            ProofError::FailedToSerializeMessage => "Failed to serialize message".to_owned(),
            ProofError::FailedToSerializeUpdate => "Failed to serialize update data".to_owned(),
        }
    }
}

/// Attaches an attested root and its envelope to the state of its slot; the
/// messages of the slot stay as they are.
pub fn store_wormhole_merkle_verified_message(
    state: AccumulatorState,
    root: WormholeMerkleRoot,
    vaa_bytes: Vec<u8>,
) -> (updated: AccumulatorState)
    ensures
        updated.slot == state.slot,
        updated.accumulator_messages == state.accumulator_messages,
        updated.wormhole_merkle_state == Some(WormholeMerkleState { root, vaa: vaa_bytes }),
{
    let mut state = state;
    state.wormhole_merkle_state = Some(WormholeMerkleState { root, vaa: vaa_bytes });
    state
}

/// The attested root is the root of the tree over the messages. No messages
/// need no root.
pub open spec fn root_verified(messages: Seq<Seq<u8>>, root: Seq<u8>) -> bool {
    messages.len() == 0 || merkle_root(messages) == root
}

/// Checks the messages of a slot against the attested root and builds the
/// proof of each message: the attestation's envelope and the message's
/// inclusion path in the tree over all messages of the slot. A slot without
/// messages has no proofs. A root that differs from the attested one is an
/// error.
pub fn construct_message_states_proofs(
    completed_accumulator_state: &CompletedAccumulatorState,
) -> (result: Result<Vec<WormholeMerkleMessageProof>, ProofError>)
    ensures
        result is Ok <==> root_verified(
            byte_strings(completed_accumulator_state.accumulator_messages.raw_messages@),
            completed_accumulator_state.wormhole_merkle_state.root.root@,
        ),
        match result {
            Ok(proofs) => {
                let messages = byte_strings(
                    completed_accumulator_state.accumulator_messages.raw_messages@,
                );
                &&& root_verified(
                    messages,
                    completed_accumulator_state.wormhole_merkle_state.root.root@,
                )
                &&& proofs@.len() == messages.len()
                &&& forall|i: int|
                    0 <= i < proofs@.len() ==> {
                        &&& (#[trigger] proofs@[i]).vaa@
                            == completed_accumulator_state.wormhole_merkle_state.vaa@
                        &&& Some(proofs@[i].proof@) == merkle_path(messages, messages[i])
                    }
            },
            Err(error) => {
                &&& error == ProofError::InvalidMerkleRoot
                &&& !root_verified(
                    byte_strings(completed_accumulator_state.accumulator_messages.raw_messages@),
                    completed_accumulator_state.wormhole_merkle_state.root.root@,
                )
            },
        },
{
    let raw_messages = &completed_accumulator_state.accumulator_messages.raw_messages;
    let wormhole_merkle_state = &completed_accumulator_state.wormhole_merkle_state;
    let ghost messages = byte_strings(raw_messages@);

    let merkle_acc = match merkle_from_set(raw_messages) {
        Some(merkle_acc) => merkle_acc,
        None => {
            return Ok(Vec::new());
        },
    };

    let root = merkle_root_of(&merkle_acc);
    if !same_as_array(&root, &wormhole_merkle_state.root.root) {
        return Err(ProofError::InvalidMerkleRoot);
    }
    let mut proofs: Vec<WormholeMerkleMessageProof> = Vec::new();
    let mut i: usize = 0;
    while i < raw_messages.len()
        invariant
            i <= raw_messages@.len(),
            messages == byte_strings(raw_messages@),
            accumulated(merkle_acc) == messages,
            proofs@.len() == i,
            forall|j: int|
                0 <= j < i ==> {
                    &&& (#[trigger] proofs@[j]).vaa@ == wormhole_merkle_state.vaa@
                    &&& Some(proofs@[j].proof@) == merkle_path(messages, messages[j])
                },
        decreases raw_messages@.len() - i,
    {
        assert(messages[i as int] == raw_messages@[i as int]@);
        assert(messages.contains(raw_messages@[i as int]@));
        match merkle_prove(&merkle_acc, &raw_messages[i]) {
            Some(proof) => {
                proofs.push(
                    WormholeMerkleMessageProof { vaa: copy_bytes(&wormhole_merkle_state.vaa), proof },
                );
            },
            None => {
                return Err(ProofError::FailedToProveMessage);
            },
        }
        i += 1;
    }
    Ok(proofs)
}

/// What checking a slot's attestation against its messages comes to.
#[derive(Debug, PartialEq, Eq)]
pub enum Verdict {
    /// The messages or the attestation have not arrived yet.
    Pending(AccumulatorState),
    /// The attested root is the root of the messages: the slot with the proof
    /// of each message.
    Verified { state: CompletedAccumulatorState, proofs: Vec<WormholeMerkleMessageProof> },
    /// The attested root is not the root of the messages: the slot without
    /// the attestation.
    Rejected { state: AccumulatorState, error: ProofError },
}

/// Checks the attestation of a slot once both the messages and the
/// attestation are there. A slot that lacks one of them stays as it is. An
/// attestation whose root is not the root of the messages is dropped from the
/// slot's state, so that it is never kept as valid; the messages stay.
pub fn verify_accumulator_state(state: AccumulatorState) -> (verdict: Verdict)
    ensures
        match verdict {
            Verdict::Pending(pending) => {
                &&& pending == state
                &&& (state.accumulator_messages is None || state.wormhole_merkle_state is None)
            },
            Verdict::Verified { state: completed, proofs } => {
                &&& completed.slot == state.slot
                &&& state.accumulator_messages == Some(completed.accumulator_messages)
                &&& state.wormhole_merkle_state == Some(completed.wormhole_merkle_state)
                &&& root_verified(
                    byte_strings(completed.accumulator_messages.raw_messages@),
                    completed.wormhole_merkle_state.root.root@,
                )
                &&& proofs@.len() == completed.accumulator_messages.raw_messages@.len()
                &&& forall|i: int|
                    0 <= i < proofs@.len() ==> {
                        &&& (#[trigger] proofs@[i]).vaa@ == completed.wormhole_merkle_state.vaa@
                        &&& Some(proofs@[i].proof@) == merkle_path(
                            byte_strings(completed.accumulator_messages.raw_messages@),
                            byte_strings(completed.accumulator_messages.raw_messages@)[i],
                        )
                    }
            },
            Verdict::Rejected { state: kept, error } => {
                &&& error == ProofError::InvalidMerkleRoot
                &&& kept.slot == state.slot
                &&& kept.accumulator_messages == state.accumulator_messages
                &&& kept.wormhole_merkle_state is None
                &&& state.accumulator_messages matches Some(messages)
                &&& state.wormhole_merkle_state matches Some(attested)
                &&& !root_verified(byte_strings(messages.raw_messages@), attested.root.root@)
            },
        },
{
    let AccumulatorState { slot, accumulator_messages, wormhole_merkle_state } = state;
    match (accumulator_messages, wormhole_merkle_state) {
        (Some(accumulator_messages), Some(wormhole_merkle_state)) => {
            let completed = CompletedAccumulatorState {
                slot,
                accumulator_messages,
                wormhole_merkle_state,
            };
            match construct_message_states_proofs(&completed) {
                Ok(proofs) => Verdict::Verified { state: completed, proofs },
                Err(error) => Verdict::Rejected {
                    state: AccumulatorState {
                        slot,
                        accumulator_messages: Some(completed.accumulator_messages),
                        wormhole_merkle_state: None,
                    },
                    error,
                },
            }
        },
        (accumulator_messages, wormhole_merkle_state) => Verdict::Pending(
            AccumulatorState { slot, accumulator_messages, wormhole_merkle_state },
        ),
    }
}

/// The envelope that a message's proof carries.
pub open spec fn vaa_of(state: &MessageState) -> Seq<u8> {
    state.proof_set.wormhole_merkle_proof.vaa@
}

/// The test for carrying the envelope `vaa`.
pub open spec fn carries<'a>(vaa: Seq<u8>) -> spec_fn(&'a MessageState) -> bool {
    |state: &MessageState| vaa_of(state) == vaa
}

/// The distinct envelopes among `states`.
pub open spec fn vaas_present(states: Seq<&MessageState>) -> Set<Seq<u8>> {
    Set::new(
        |vaa: Seq<u8>| exists|i: int| 0 <= i < states.len() && vaa_of(#[trigger] states[i]) == vaa,
    )
}

/// `keys` lists the distinct envelopes among `states`, each once, in
/// dictionary order.
pub open spec fn is_vaa_order(keys: Seq<Seq<u8>>, states: Seq<&MessageState>) -> bool {
    strictly_increasing(keys) && keys.to_set() == vaas_present(states)
}

/// The distinct envelopes among `states` in dictionary order.
pub open spec fn vaa_order(states: Seq<&MessageState>) -> Seq<Seq<u8>> {
    choose|keys: Seq<Seq<u8>>| is_vaa_order(keys, states)
}

/// A message in binary form with its path, as the wire carries them.
pub open spec fn update_of(state: &MessageState) -> UpdateBytes {
    (message_layout(state.message), state.proof_set.wormhole_merkle_proof.proof@)
}

/// The updates of the messages that carry `vaa`, in the order of `states`.
pub open spec fn group_updates(states: Seq<&MessageState>, vaa: Seq<u8>) -> Seq<UpdateBytes> {
    states.filter(carries(vaa)).map_values(|state: &MessageState| update_of(state))
}

/// The envelope and its updates can be written: the envelope's length fits
/// in two bytes, the number of updates and the length of each path in one.
pub open spec fn fits_wire(vaa: Seq<u8>, updates: Seq<UpdateBytes>) -> bool {
    vaa.len() <= 0xffff && counts_fit(updates)
}

/// The update data for `states`: one blob per distinct envelope, in the
/// dictionary order of the envelopes, each holding the envelope once and the
/// updates of the messages that carry it in their order in `states`. There is
/// none if one of the groups cannot be written.
pub open spec fn update_data(states: Seq<&MessageState>) -> Result<Seq<Seq<u8>>, ProofError> {
    let keys = vaa_order(states);
    if forall|k: int|
        0 <= k < keys.len() ==> fits_wire(#[trigger] keys[k], group_updates(states, keys[k])) {
        Ok(
            Seq::new(
                keys.len(),
                |k: int| accumulator_update_layout(keys[k], group_updates(states, keys[k])),
            ),
        )
    } else {
        Err(ProofError::FailedToSerializeUpdate)
    }
}

/// One more message adds its envelope to those present.
pub proof fn lemma_present_step(states: Seq<&MessageState>, n: int)
    requires
        0 <= n < states.len(),
    ensures
        vaas_present(states.take(n + 1)) == vaas_present(states.take(n)).insert(vaa_of(states[n])),
{
    let before = states.take(n);
    let after = states.take(n + 1);
    assert forall|vaa: Seq<u8>|
        vaas_present(after).contains(vaa) == vaas_present(before).insert(
            vaa_of(states[n]),
        ).contains(vaa) by {
        if vaas_present(after).contains(vaa) {
            let i = choose|i: int| 0 <= i < after.len() && vaa_of(#[trigger] after[i]) == vaa;
            if i < n {
                assert(vaa_of(before[i]) == vaa);
            }
        }
        if vaas_present(before).contains(vaa) {
            let i = choose|i: int| 0 <= i < before.len() && vaa_of(#[trigger] before[i]) == vaa;
            assert(vaa_of(after[i]) == vaa);
        }
        if vaa == vaa_of(states[n]) {
            assert(vaa_of(after[n]) == vaa);
        }
    }
    assert(vaas_present(after) =~= vaas_present(before).insert(vaa_of(states[n])));
}

/// One more message joins the group of its envelope and no other.
pub proof fn lemma_group_step(states: Seq<&MessageState>, n: int, vaa: Seq<u8>)
    requires
        0 <= n < states.len(),
    ensures
        states.take(n + 1).filter(carries(vaa)) == if vaa_of(states[n]) == vaa {
            states.take(n).filter(carries(vaa)).push(states[n])
        } else {
            states.take(n).filter(carries(vaa))
        },
{
    assert(states.take(n + 1) =~= states.take(n).push(states[n]));
    states.take(n).lemma_filter_push(states[n], carries(vaa));
}

/// An envelope that no message carries has an empty group.
pub proof fn lemma_group_absent(states: Seq<&MessageState>, vaa: Seq<u8>)
    requires
        !vaas_present(states).contains(vaa),
    ensures
        states.filter(carries(vaa)).len() == 0,
{
    let group = states.filter(carries(vaa));
    if group.len() > 0 {
        states.lemma_filter_pred(carries(vaa), 0);
        assert(group.contains(group[0]));
        states.lemma_filter_contains_rev(carries(vaa), group[0]);
        let i = choose|i: int| 0 <= i < states.len() && states[i] == group[0];
        assert(vaa_of(states[i]) == vaa);
    }
}

/// The envelope that each group stands for: that of its first message.
pub open spec fn group_keys(groups: Seq<Vec<&MessageState>>) -> Seq<Seq<u8>> {
    Seq::new(groups.len(), |k: int| vaa_of(groups[k]@[0]))
}

/// Sorts the messages into groups by their envelope: one group per distinct
/// envelope, the groups in the dictionary order of their envelopes, the
/// messages of a group in the order in which they came.
pub fn partition_by_vaa<'a>(message_states: &Vec<&'a MessageState>) -> (groups: Vec<
    Vec<&'a MessageState>,
>)
    ensures
        is_vaa_order(group_keys(groups@), message_states@),
        forall|k: int|
            0 <= k < groups@.len() ==> (#[trigger] groups@[k])@ == message_states@.filter(
                carries(group_keys(groups@)[k]),
            ),
        forall|k: int| 0 <= k < groups@.len() ==> (#[trigger] groups@[k])@.len() > 0,
{
    let mut groups: Vec<Vec<&MessageState>> = Vec::new();
    let ghost mut keys: Seq<Seq<u8>> = Seq::empty();
    let mut n: usize = 0;
    assert(keys.to_set() =~= vaas_present(message_states@.take(0)));
    while n < message_states.len()
        invariant
            n <= message_states@.len(),
            groups@.len() == keys.len(),
            strictly_increasing(keys),
            keys.to_set() == vaas_present(message_states@.take(n as int)),
            forall|k: int|
                0 <= k < groups@.len() ==> (#[trigger] groups@[k])@ == message_states@.take(
                    n as int,
                ).filter(carries(keys[k])),
            forall|k: int|
                0 <= k < groups@.len() ==> (#[trigger] groups@[k])@.len() > 0 && vaa_of(
                    groups@[k]@[0],
                ) == keys[k],
        decreases message_states@.len() - n,
    {
        let state = message_states[n];
        let vaa = &state.proof_set.wormhole_merkle_proof.vaa;
        let mut at: usize = 0;
        let mut found = false;
        while at < groups.len()
            invariant_except_break
                !found,
            invariant
                at <= groups@.len(),
                groups@.len() == keys.len(),
                forall|k: int|
                    0 <= k < groups@.len() ==> (#[trigger] groups@[k])@.len() > 0 && vaa_of(
                        groups@[k]@[0],
                    ) == keys[k],
                forall|j: int| 0 <= j < at ==> lex_less(#[trigger] keys[j], vaa@),
            ensures
                found ==> at < groups@.len() && keys[at as int] == vaa@,
                !found && at < groups@.len() ==> lex_less(vaa@, keys[at as int]),
            decreases groups@.len() - at,
        {
            let head = groups[at][0];
            match rank_bytes(vaa, &head.proof_set.wormhole_merkle_proof.vaa) {
                Rank::Same => {
                    found = true;
                    break ;
                },
                Rank::Before => {
                    break ;
                },
                Rank::After => {
                    at += 1;
                },
            }
        }
        let ghost front = message_states@.take(n as int);
        proof {
            lemma_present_step(message_states@, n as int);
            lemma_strictly_increasing_distinct(keys);
        }
        if found {
            let mut group = groups.remove(at);
            group.push(state);
            groups.insert(at, group);
            proof {
                assert(keys.to_set().contains(keys[at as int]));
                assert(keys.to_set().insert(vaa@) =~= keys.to_set());
                assert forall|k: int| 0 <= k < groups@.len() implies (#[trigger] groups@[k])@
                    == message_states@.take(n + 1).filter(carries(keys[k])) by {
                    lemma_group_step(message_states@, n as int, keys[k]);
                }
            }
        } else {
            proof {
                lemma_insert_key(keys, at as int, vaa@);
                assert(!vaas_present(front).contains(vaa@));
                lemma_group_absent(front, vaa@);
            }
            let ghost before = groups@;
            let ghost keys_before = keys;
            let mut group: Vec<&MessageState> = Vec::new();
            group.push(state);
            groups.insert(at, group);
            proof {
                keys = keys.insert(at as int, vaa@);
                assert forall|k: int| 0 <= k < groups@.len() implies (#[trigger] groups@[k])@
                    == message_states@.take(n + 1).filter(carries(keys[k])) by {
                    lemma_group_step(message_states@, n as int, keys[k]);
                    if k < at {
                        assert(groups@[k] == before[k]);
                        assert(keys[k] == keys_before[k]);
                        assert(keys_before.contains(keys_before[k]));
                    } else if k == at {
                        assert(groups@[k]@ =~= front.filter(carries(vaa@)).push(state));
                    } else {
                        assert(groups@[k] == before[k - 1]);
                        assert(keys[k] == keys_before[k - 1]);
                        assert(keys_before.contains(keys_before[k - 1]));
                    }
                }
                assert forall|k: int| 0 <= k < groups@.len() implies (#[trigger] groups@[k])@.len()
                    > 0 && vaa_of(groups@[k]@[0]) == keys[k] by {
                    if k < at {
                        assert(groups@[k] == before[k]);
                    } else if k > at {
                        assert(groups@[k] == before[k - 1]);
                    }
                }
            }
        }
        n += 1;
    }
    proof {
        assert(message_states@.take(n as int) =~= message_states@);
        assert(group_keys(groups@) =~= keys);
    }
    groups
}


/// Packs proven messages into update data: one blob per distinct envelope.
/// The blobs come in the dictionary order of their envelopes. Each holds its
/// envelope once and, for every message that carries it, the message in
/// binary form with its inclusion path, in the order in which the messages
/// were given. Nothing is built if an envelope, the number of messages under
/// it, or a path is too long for the wire format.
pub fn construct_update_data(message_states: Vec<&MessageState>) -> (result: Result<
    Vec<Vec<u8>>,
    ProofError,
>)
    ensures
        match result {
            Ok(blobs) => update_data(message_states@) == Ok::<Seq<Seq<u8>>, ProofError>(
                byte_strings(blobs@),
            ),
            Err(error) => update_data(message_states@) == Err::<Seq<Seq<u8>>, ProofError>(error),
        },
        result matches Ok(blobs) ==> blobs@.len() == vaas_present(message_states@).len(),
{
    let groups = partition_by_vaa(&message_states);
    let ghost keys = group_keys(groups@);
    proof {
        assert(is_vaa_order(keys, message_states@));
        lemma_strictly_increasing_unique(keys, vaa_order(message_states@));
        lemma_strictly_increasing_distinct(keys);
        keys.unique_seq_to_set();
    }
    let mut blobs: Vec<Vec<u8>> = Vec::new();
    let mut k: usize = 0;
    while k < groups.len()
        invariant
            k <= groups@.len(),
            blobs@.len() == k,
            keys == group_keys(groups@),
            keys == vaa_order(message_states@),
            forall|j: int|
                0 <= j < groups@.len() ==> (#[trigger] groups@[j])@ == message_states@.filter(
                    carries(keys[j]),
                ),
            forall|j: int| 0 <= j < groups@.len() ==> (#[trigger] groups@[j])@.len() > 0,
            forall|j: int|
                0 <= j < k ==> fits_wire(
                    #[trigger] keys[j],
                    group_updates(message_states@, keys[j]),
                ),
            forall|j: int|
                0 <= j < k ==> (#[trigger] blobs@[j])@ == accumulator_update_layout(
                    keys[j],
                    group_updates(message_states@, keys[j]),
                ),
        decreases groups@.len() - k,
    {
        let group = &groups[k];
        let vaa = &group[0].proof_set.wormhole_merkle_proof.vaa;
        assert(vaa@ == keys[k as int]);
        if vaa.len() > 0xffff {
            assert(!fits_wire(keys[k as int], group_updates(message_states@, keys[k as int])));
            return Err(ProofError::FailedToSerializeUpdate);
        }
        let mut updates: Vec<MerklePriceUpdate> = Vec::new();
        let mut m: usize = 0;
        while m < group.len()
            invariant
                m <= group@.len(),
                updates@.len() == m,
                forall|j: int|
                    0 <= j < m ==> (#[trigger] updates@[j]).message@ == message_layout(
                        group@[j].message,
                    ) && updates@[j].proof@ == group@[j].proof_set.wormhole_merkle_proof.proof@,
            decreases group@.len() - m,
        {
            let state = group[m];
            let message = match wire_message(&state.message) {
                Ok(message) => message,
                Err(_) => {
                    return Err(ProofError::FailedToSerializeMessage);
                },
            };
            updates.push(
                MerklePriceUpdate {
                    message,
                    proof: state.proof_set.wormhole_merkle_proof.proof.duplicate(),
                },
            );
            m += 1;
        }
        proof {
            assert(update_bytes(updates@) =~= group_updates(message_states@, keys[k as int]));
            assert forall|j: int| 0 <= j < updates@.len() implies (#[trigger] update_bytes(
                updates@,
            )[j]).0.len() <= 0xffff by {
                lemma_message_layout_len(group@[j].message);
            }
        }
        match wire_accumulator_update(vaa, &updates) {
            Ok(blob) => {
                blobs.push(blob);
            },
            Err(_) => {
                assert(!fits_wire(keys[k as int], group_updates(message_states@, keys[k as int])));
                return Err(ProofError::FailedToSerializeUpdate);
            },
        }
        k += 1;
    }
    proof {
        assert(byte_strings(blobs@) =~= Seq::new(
            keys.len(),
            |j: int| accumulator_update_layout(keys[j], group_updates(message_states@, keys[j])),
        ));
    }
    Ok(blobs)
}


/// Whatever the messages, their distinct envelopes can be listed in
/// dictionary order.
pub proof fn lemma_vaa_order_exists(states: Seq<&MessageState>)
    ensures
        is_vaa_order(vaa_order(states), states),
    decreases states.len(),
{
    if states.len() == 0 {
        let none = Seq::<Seq<u8>>::empty();
        assert(none.to_set() =~= vaas_present(states));
        assert(is_vaa_order(none, states));
    } else {
        let front = states.drop_last();
        lemma_vaa_order_exists(front);
        let keys = vaa_order(front);
        let vaa = vaa_of(states.last());
        assert(states.take(states.len() - 1) =~= front);
        assert(states.take(states.len() as int) =~= states);
        lemma_present_step(states, states.len() - 1);
        if keys.contains(vaa) {
            assert(keys.to_set().insert(vaa) =~= keys.to_set());
            assert(is_vaa_order(keys, states));
        } else {
            let at = insertion_point(keys, vaa);
            lemma_insertion_point(keys, vaa);
            if at < keys.len() {
                lemma_lex_less_total(keys[at], vaa);
                assert(keys.contains(keys[at]));
            }
            lemma_insert_key(keys, at, vaa);
            assert(is_vaa_order(keys.insert(at, vaa), states));
        }
    }
}

/// There are as many blobs as there are distinct envelopes, and every
/// message has its envelope in exactly one place of the order: it belongs to
/// one blob and to no second.
pub proof fn lemma_one_blob_per_vaa(states: Seq<&MessageState>)
    ensures
        vaas_present(states).finite(),
        vaa_order(states).len() == vaas_present(states).len(),
        vaa_order(states).no_duplicates(),
        forall|i: int|
            0 <= i < states.len() ==> vaa_order(states).contains(vaa_of(#[trigger] states[i])),
        update_data(states) matches Ok(blobs) ==> blobs.len() == vaas_present(states).len(),
{
    lemma_vaa_order_exists(states);
    let keys = vaa_order(states);
    lemma_strictly_increasing_distinct(keys);
    keys.unique_seq_to_set();
    assert forall|i: int| 0 <= i < states.len() implies keys.contains(
        vaa_of(#[trigger] states[i]),
    ) by {
        assert(vaas_present(states).contains(vaa_of(states[i])));
        assert(keys.to_set().contains(vaa_of(states[i])));
    }
}

/// No message is dropped or duplicated: a message occurs in the group of its
/// own envelope as often as among the messages given, and in no other group.
pub proof fn lemma_groups_keep_messages(
    states: Seq<&MessageState>,
    vaa: Seq<u8>,
    state: &MessageState,
)
    ensures
        states.filter(carries(vaa)).to_multiset().count(state) == if vaa_of(state) == vaa {
            states.to_multiset().count(state)
        } else {
            0
        },
    decreases states.len(),
{
    broadcast use vstd::seq_lib::group_to_multiset_ensures;

    if states.len() == 0 {
        assert(states.filter(carries(vaa)).len() == 0) by {
            states.lemma_filter_len(carries(vaa));
        }
        assert(!states.contains(state));
        assert(!states.filter(carries(vaa)).contains(state));
    } else {
        let front = states.drop_last();
        let last = states.last();
        lemma_groups_keep_messages(front, vaa, state);
        assert(states =~= front.push(last));
        front.lemma_filter_push(last, carries(vaa));
        assert(front.push(last).to_multiset() =~= front.to_multiset().insert(last));
        if vaa_of(last) == vaa {
            assert(front.filter(carries(vaa)).push(last).to_multiset() =~= front.filter(
                carries(vaa),
            ).to_multiset().insert(last));
        }
    }
}

} // verus!
