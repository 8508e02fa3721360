//! The binary layout of price messages and of accumulator update data, and
//! the calls that produce it.

use crate::merkle::MerklePath;
use byteorder::BE;
use pythnet_sdk::accumulators::merkle::MerklePath as WireMerklePath;
use pythnet_sdk::hashers::keccak256_160::Keccak160;
use pythnet_sdk::messages::Message as WireMessage;
use pythnet_sdk::messages::PriceFeedMessage as WirePriceFeedMessage;
use pythnet_sdk::messages::TwapMessage as WireTwapMessage;
use pythnet_sdk::wire::to_vec;
use pythnet_sdk::wire::v1::AccumulatorUpdateData;
use pythnet_sdk::wire::v1::MerklePriceUpdate as WireMerklePriceUpdate;
use pythnet_sdk::wire::v1::Proof;
use pythnet_sdk::wire::SerializerError;
use vstd::prelude::*;

verus! {

/// The price of one feed at one time.
#[derive(Clone, Copy, Debug, PartialEq, Eq)]
pub struct PriceFeedMessage {
    pub feed_id: [u8; 32],
    pub price: i64,
    pub conf: u64,
    pub exponent: i32,
    pub publish_time: i64,
    pub prev_publish_time: i64,
    pub ema_price: i64,
    pub ema_conf: u64,
}

/// The cumulative price of one feed, from which time-weighted averages are taken.
#[derive(Clone, Copy, Debug, PartialEq, Eq)]
pub struct TwapMessage {
    pub feed_id: [u8; 32],
    pub cumulative_price: i128,
    pub cumulative_conf: u128,
    pub num_down_slots: u64,
    pub exponent: i32,
    pub publish_time: i64,
    pub prev_publish_time: i64,
    pub publish_slot: u64,
}

/// One message of the oracle network.
#[derive(Clone, Copy, Debug, PartialEq, Eq)]
pub enum Message {
    PriceFeedMessage(PriceFeedMessage),
    TwapMessage(TwapMessage),
}

/// One message in its binary form together with its inclusion path.
#[derive(Debug, PartialEq, Eq)]
pub struct MerklePriceUpdate {
    pub message: Vec<u8>,
    pub proof: MerklePath,
}

/// A message in binary form and its path, as byte strings.
pub type UpdateBytes = (Seq<u8>, Seq<Seq<u8>>);

/// The byte strings that a list of updates stands for.
pub open spec fn update_bytes(updates: Seq<MerklePriceUpdate>) -> Seq<UpdateBytes> {
    updates.map_values(|update: MerklePriceUpdate| (update.message@, update.proof@))
}

/// The `width` low-order bytes of `value` in two's complement, the most
/// significant first.
pub open spec fn be_bytes(value: int, width: nat) -> Seq<u8>
    decreases width,
{
    if width == 0 {
        Seq::empty()
    } else {
        be_bytes(value / 256, (width - 1) as nat).push((value % 256) as u8)
    }
}

/// An integer written in `width` bytes takes `width` bytes.
pub proof fn lemma_be_bytes_len(value: int, width: nat)
    ensures
        be_bytes(value, width).len() == width,
    decreases width,
{
    if width != 0 {
        lemma_be_bytes_len(value / 256, (width - 1) as nat);
    }
}

/// The binary form of a price feed message: the tag 0, then the fields in
/// order, integers big-endian.
pub open spec fn price_feed_message_layout(message: PriceFeedMessage) -> Seq<u8> {
    seq![0u8] + message.feed_id@ + be_bytes(message.price as int, 8) + be_bytes(
        message.conf as int,
        8,
    ) + be_bytes(message.exponent as int, 4) + be_bytes(message.publish_time as int, 8) + be_bytes(
        message.prev_publish_time as int,
        8,
    ) + be_bytes(message.ema_price as int, 8) + be_bytes(message.ema_conf as int, 8)
}

/// The binary form of a twap message: the tag 1, then the fields in order,
/// integers big-endian.
pub open spec fn twap_message_layout(message: TwapMessage) -> Seq<u8> {
    seq![1u8] + message.feed_id@ + be_bytes(message.cumulative_price as int, 16) + be_bytes(
        message.cumulative_conf as int,
        16,
    ) + be_bytes(message.num_down_slots as int, 8) + be_bytes(message.exponent as int, 4)
        + be_bytes(message.publish_time as int, 8) + be_bytes(message.prev_publish_time as int, 8)
        + be_bytes(message.publish_slot as int, 8)
}

/// The binary form of a message.
pub open spec fn message_layout(message: Message) -> Seq<u8> {
    match message {
        Message::PriceFeedMessage(message) => price_feed_message_layout(message),
        Message::TwapMessage(message) => twap_message_layout(message),
    }
}

/// A message takes 85 or 101 bytes.
pub proof fn lemma_message_layout_len(message: Message)
    ensures
        message_layout(message).len() == match message {
            Message::PriceFeedMessage(_) => 85nat,
            Message::TwapMessage(_) => 101nat,
        },
{
    match message {
        Message::PriceFeedMessage(m) => {
            lemma_be_bytes_len(m.price as int, 8);
            lemma_be_bytes_len(m.conf as int, 8);
            lemma_be_bytes_len(m.exponent as int, 4);
            lemma_be_bytes_len(m.publish_time as int, 8);
            lemma_be_bytes_len(m.prev_publish_time as int, 8);
            lemma_be_bytes_len(m.ema_price as int, 8);
            lemma_be_bytes_len(m.ema_conf as int, 8);
        },
        Message::TwapMessage(m) => {
            lemma_be_bytes_len(m.cumulative_price as int, 16);
            lemma_be_bytes_len(m.cumulative_conf as int, 16);
            lemma_be_bytes_len(m.num_down_slots as int, 8);
            lemma_be_bytes_len(m.exponent as int, 4);
            lemma_be_bytes_len(m.publish_time as int, 8);
            lemma_be_bytes_len(m.prev_publish_time as int, 8);
            lemma_be_bytes_len(m.publish_slot as int, 8);
        },
    }
}

/// One update on the wire: the message behind its length in two bytes, then
/// the path behind its length in one byte, each hash in full.
pub open spec fn update_layout(update: UpdateBytes) -> Seq<u8> {
    be_bytes(update.0.len() as int, 2) + update.0 + seq![update.1.len() as u8]
        + update.1.flatten()
}

/// The updates of one blob, one after the other.
pub open spec fn updates_layout(updates: Seq<UpdateBytes>) -> Seq<u8>
    decreases updates.len(),
{
    if updates.len() == 0 {
        Seq::empty()
    } else {
        updates_layout(updates.drop_last()) + update_layout(updates.last())
    }
}

/// Accumulator update data on the wire: the magic "PNAU", major version 1,
/// minor version 0, no trailing bytes, the proof kind 0, the attestation
/// behind its length in two bytes, then the updates behind their number in
/// one byte.
pub open spec fn accumulator_update_layout(vaa: Seq<u8>, updates: Seq<UpdateBytes>) -> Seq<u8> {
    seq![0x50u8, 0x4e, 0x41, 0x55, 1, 0, 0, 0] + be_bytes(vaa.len() as int, 2) + vaa
        + seq![updates.len() as u8] + updates_layout(updates)
}

/// What the wire format can hold: the number of updates and the length of
/// each path in one byte.
pub open spec fn counts_fit(updates: Seq<UpdateBytes>) -> bool {
    updates.len() <= 0xff && forall|i: int|
        0 <= i < updates.len() ==> (#[trigger] updates[i]).1.len() <= 0xff
}

/// What can be handed to the encoder: the attestation and each message with
/// a length that fits in two bytes.
pub open spec fn lengths_fit(vaa: Seq<u8>, updates: Seq<UpdateBytes>) -> bool {
    vaa.len() <= 0xffff && forall|i: int|
        0 <= i < updates.len() ==> (#[trigger] updates[i]).0.len() <= 0xffff
}

/// `SerializerError` of pythnet-sdk, taken as opaque.
#[verifier::external_type_specification]
#[verifier::external_body]
pub struct ExSerializerError(SerializerError);

/// `to_vec::<_, BE>` of pythnet-sdk on a message. The format writes an enum
/// as its variant's index in one byte, a struct as its fields in order, a
/// fixed array as its elements and an integer in the byte order asked for;
/// none of these can fail when written into a vector.
#[verifier::external_body]
pub(crate) fn wire_message(message: &Message) -> (bytes: Result<Vec<u8>, SerializerError>)
    ensures
        bytes is Ok,
        bytes matches Ok(written) ==> written@ == message_layout(*message),
{
    to_vec::<_, BE>(&match *message {
        Message::PriceFeedMessage(m) => WireMessage::PriceFeedMessage(WirePriceFeedMessage {
            feed_id: m.feed_id, price: m.price, conf: m.conf, exponent: m.exponent,
            publish_time: m.publish_time, prev_publish_time: m.prev_publish_time,
            ema_price: m.ema_price, ema_conf: m.ema_conf,
        }),
        Message::TwapMessage(m) => WireMessage::TwapMessage(WireTwapMessage {
            feed_id: m.feed_id, cumulative_price: m.cumulative_price,
            cumulative_conf: m.cumulative_conf, num_down_slots: m.num_down_slots,
            exponent: m.exponent, publish_time: m.publish_time,
            prev_publish_time: m.prev_publish_time, publish_slot: m.publish_slot,
        }),
    })
}

/// `to_vec::<_, BE>` of pythnet-sdk on `AccumulatorUpdateData` with a
/// `Proof::WormholeMerkle`. A sequence is written behind its length in one
/// byte and refused when it is longer than 255; the attestation and each
/// message are written behind their length in two bytes, and the encoder
/// panics on a longer one, which `requires` leaves out.
#[verifier::external_body]
pub(crate) fn wire_accumulator_update(vaa: &Vec<u8>, updates: &Vec<MerklePriceUpdate>) -> (bytes:
    Result<Vec<u8>, SerializerError>)
    requires
        lengths_fit(vaa@, update_bytes(updates@)),
    ensures
        bytes is Ok <==> counts_fit(update_bytes(updates@)),
        bytes matches Ok(written) ==> written@ == accumulator_update_layout(
            vaa@,
            update_bytes(updates@),
        ),
{
    let updates = updates.iter().map(|update| WireMerklePriceUpdate {
        message: update.message.clone().into(),
        proof: WireMerklePath::<Keccak160>::new(update.proof.hashes.clone()),
    });
    to_vec::<_, BE>(&AccumulatorUpdateData::new(Proof::WormholeMerkle {
        vaa: vaa.clone().into(),
        updates: updates.collect(),
    }))
}

} // verus!
