//! Primitives of the message lanes between two chains.

use frame_support::weights::Weight;
use sp_std::collections::vec_deque::VecDeque;
use vstd::prelude::*;

verus! {

/// The weight of a dispatch, as `frame_support` measures it.
///
/// Trusted: the type is carried through and nothing is read of it.
#[verifier::external_type_specification]
#[verifier::external_body]
pub struct ExWeight(Weight);

/// `Clone::clone` of `Weight`.
///
/// Trusted: `Weight` is a `Copy` type whose `Clone` is derived, so the clone
/// equals the weight it was made of.
pub assume_specification[ <Weight as Clone>::clone ](weight: &Weight) -> (r: Weight)
    ensures
        r == *weight,
;

/// Operating mode of the messages pallet.
#[derive(Clone, Copy, Debug, PartialEq, Eq, Structural)]
pub enum OperatingMode {
    /// Normal mode, when all operations are allowed.
    Normal,
    /// The pallet is not accepting outbound messages. Inbound messages and
    /// receival proofs are still accepted.
    RejectingOutboundMessages,
    /// The pallet is halted. All operations but a change of the operating
    /// mode are prohibited.
    Halted,
}

impl Default for OperatingMode {
    fn default() -> (r: Self)
        ensures
            r == OperatingMode::Normal,
    {
        OperatingMode::Normal
    }
}

/// Lane identifier.
pub type LaneId = [u8; 4];

/// Message nonce. Valid messages never have nonce zero.
pub type MessageNonce = u64;

/// Message id as a tuple.
pub type MessageId = (LaneId, MessageNonce);

/// Opaque message payload. It is decoded only when the message is dispatched.
pub type MessagePayload = Vec<u8>;

/// The key under which a message is stored.
#[derive(Clone, Debug, PartialEq, Eq)]
pub struct MessageKey {
    /// Id of the message lane.
    pub lane_id: LaneId,
    /// Message nonce.
    pub nonce: MessageNonce,
}

/// Message data as it is stored.
#[derive(Clone, Debug, PartialEq, Eq)]
pub struct MessageData<Fee> {
    /// Message payload.
    pub payload: MessagePayload,
    /// Message delivery and dispatch fee, paid by the submitter.
    pub fee: Fee,
}

/// Message as it is stored.
#[derive(Clone, Debug, PartialEq, Eq)]
pub struct Message<Fee> {
    /// Message key.
    pub key: MessageKey,
    /// Message data.
    pub data: MessageData<Fee>,
}

/// The size in bytes of an encoded message nonce.
pub const MESSAGE_NONCE_SIZE: u32 = 8;

/// The approximate size of encoded inbound lane data with `relayers_entries`
/// entries, each with a relayer id of `relayer_id_encoded_size` bytes and two
/// nonces, followed by one nonce; `None` where the size of an entry or the
/// whole does not fit 32 bits.
pub open spec fn size_hint(relayer_id_encoded_size: u32, relayers_entries: u32) -> Option<u32> {
    let entry = relayer_id_encoded_size + 2 * MESSAGE_NONCE_SIZE;
    let total = relayers_entries * entry + MESSAGE_NONCE_SIZE;
    if entry > u32::MAX || total > u32::MAX {
        None
    } else {
        Some(total as u32)
    }
}

/// The number of messages from the first nonce of the first entry to the last
/// nonce of the last: zero without entries or where the two are in the wrong
/// order, `None` where the number does not fit a nonce.
pub open spec fn unrewarded_messages<RelayerId>(
    relayers: Seq<(MessageNonce, MessageNonce, RelayerId)>,
) -> Option<MessageNonce> {
    if relayers.len() == 0 {
        Some(0)
    } else if relayers.last().1 < relayers.first().0 {
        Some(0)
    } else if relayers.last().1 - relayers.first().0 + 1 > u64::MAX {
        None
    } else {
        Some((relayers.last().1 - relayers.first().0 + 1) as u64)
    }
}

/// Inbound lane data.
#[derive(Clone, Debug, PartialEq, Eq)]
pub struct InboundLaneData<RelayerId> {
    /// The relayers with the messages that each has delivered to this lane
    /// and that are not rewarded yet, in the order of the nonces. Each entry
    /// holds the first and the last nonce of a delivery and the relayer.
    pub relayers: VecDeque<(MessageNonce, MessageNonce, RelayerId)>,
    /// Nonce of the last message whose delivery has been confirmed to the
    /// source chain, as far as this chain knows.
    pub last_confirmed_nonce: MessageNonce,
}

impl<RelayerId> Default for InboundLaneData<RelayerId> {
    fn default() -> (r: Self)
        ensures
            r.relayers@ == Seq::<(MessageNonce, MessageNonce, RelayerId)>::empty(),
            r.last_confirmed_nonce == 0,
    {
        InboundLaneData { relayers: VecDeque::new(), last_confirmed_nonce: 0 }
    }
}

impl<RelayerId> InboundLaneData<RelayerId> {
    /// The nonce of the last message that has been delivered to this chain:
    /// the last nonce of the last entry, or the last confirmed nonce without entries.
    pub open spec fn spec_last_delivered_nonce(&self) -> MessageNonce {
        if self.relayers@.len() == 0 {
            self.last_confirmed_nonce
        } else {
            self.relayers@.last().1
        }
    }

    /// Returns the approximate size of the encoded struct, given the number
    /// of entries in `relayers` and the encoded size of a relayer id.
    ///
    /// Returns `None` if the size does not fit 32 bits.
    pub fn encoded_size_hint(relayer_id_encoded_size: u32, relayers_entries: u32) -> (r: Option<
        u32,
    >)
        ensures
            r == size_hint(relayer_id_encoded_size, relayers_entries),
    {
        let message_nonce_size = MESSAGE_NONCE_SIZE;
        let relayers_entry_size = relayer_id_encoded_size.checked_add(2 * message_nonce_size)?;
        let relayers_size = relayers_entries.checked_mul(relayers_entry_size)?;
        relayers_size.checked_add(message_nonce_size)
    }

    /// Returns the nonce of the last message that has been delivered to this chain.
    pub fn last_delivered_nonce(&self) -> (r: MessageNonce)
        ensures
            r == self.spec_last_delivered_nonce(),
    {
        let entries = self.relayers.len();
        if entries == 0 {
            self.last_confirmed_nonce
        } else {
            self.relayers[entries - 1].1
        }
    }
}

/// Message details, as runtime APIs return them.
#[derive(Clone, Default, Debug, PartialEq, Eq)]
pub struct MessageDetails<OutboundMessageFee> {
    /// Nonce assigned to the message.
    pub nonce: MessageNonce,
    /// Message dispatch weight, declared by the submitter.
    pub dispatch_weight: Weight,
    /// Size of the encoded message.
    pub size: u32,
    /// Delivery and dispatch fee paid by the message submitter at the source chain.
    pub delivery_and_dispatch_fee: OutboundMessageFee,
    /// Whether the dispatch fee was paid at the source chain.
    pub dispatch_fee_payment: bool,
}

/// Gist of the `relayers` of inbound lane data, as runtime APIs use it.
#[derive(Clone, Default, Debug, PartialEq, Eq)]
pub struct UnrewardedRelayersState {
    /// Number of entries in `relayers`.
    pub unrewarded_relayer_entries: MessageNonce,
    /// Number of messages in the oldest entry of `relayers`. This is the
    /// least number of reward proofs required to push this entry out.
    pub messages_in_oldest_entry: MessageNonce,
    /// Total number of messages in `relayers`.
    pub total_messages: MessageNonce,
}

/// Outbound lane data.
#[derive(Clone, Debug, PartialEq, Eq)]
pub struct OutboundLaneData {
    /// Nonce of the oldest message that is not pruned yet. May point to a
    /// message that is not generated yet, if all sent messages are pruned.
    pub oldest_unpruned_nonce: MessageNonce,
    /// Nonce of the latest message that the bridged chain has received.
    pub latest_received_nonce: MessageNonce,
    /// Nonce of the latest message that this chain has generated.
    pub latest_generated_nonce: MessageNonce,
}

impl Default for OutboundLaneData {
    fn default() -> (r: Self)
        ensures
            r.oldest_unpruned_nonce == 1,
            r.latest_received_nonce == 0,
            r.latest_generated_nonce == 0,
    {
        OutboundLaneData {
            oldest_unpruned_nonce: 1,
            latest_received_nonce: 0,
            latest_generated_nonce: 0,
        }
    }
}

/// Returns the total number of messages in the `relayers` of inbound lane data.
///
/// Returns `None` if there are more messages than a nonce can count.
pub fn total_unrewarded_messages<RelayerId>(
    relayers: &VecDeque<(MessageNonce, MessageNonce, RelayerId)>,
) -> (r: Option<MessageNonce>)
    ensures
        r == unrewarded_messages(relayers@),
{
    let entries = relayers.len();
    if entries == 0 {
        return Some(0);
    }
    let begin = relayers[0].0;
    let end = relayers[entries - 1].1;
    match end.checked_sub(begin) {
        Some(difference) => difference.checked_add(1),
        None => Some(0),
    }
}

} // verus!
