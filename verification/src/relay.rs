//! The relay's decisions: to whom a message goes, and who is dropped after
//! the writes.
//!
//! The library performs no write itself. It says what is to be written to
//! whom, and is told afterwards how each write went.

use crate::error::ChatError;
use crate::frame::{frame_of, MAX_PAYLOAD};
use crate::message::{payload_of, MessageType, MessageView};
use crate::registry::{
    distinct_addresses, has_address, lemma_mapping_domain, lemma_remaining_distinct,
    lemma_remaining_members, mapping, remaining, ClientRegistry, ConnectionEntry, PeerAddr,
};
use vstd::prelude::*;

verus! {

/// How the write to one client went.
#[derive(Debug, Clone, Copy, PartialEq, Eq, Structural)]
pub struct Delivery {
    pub addr: PeerAddr,
    pub delivered: bool,
}

/// The writes that one message asks for: the same frame to each of the targets.
#[derive(Debug, Clone, PartialEq, Eq)]
pub struct Broadcast {
    pub frame: Vec<u8>,
    pub targets: Vec<ConnectionEntry>,
}

/// The addresses that a broadcast from `sender` drops: those to which a write
/// failed. The sender is not written to and is never among them.
pub open spec fn failed(outcomes: Seq<Delivery>, sender: PeerAddr) -> Set<PeerAddr> {
    Set::new(
        |addr: PeerAddr|
            addr != sender && exists|i: int|
                0 <= i < outcomes.len() && (#[trigger] outcomes[i]).addr == addr
                    && !outcomes[i].delivered,
    )
}

/// The addresses to which a write failed, in the order of the outcomes,
/// without the sender.
fn failed_addresses(outcomes: &Vec<Delivery>, sender: PeerAddr) -> (addrs: Vec<PeerAddr>)
    ensures
        addrs@.to_set() == failed(outcomes@, sender),
{
    let mut addrs: Vec<PeerAddr> = Vec::new();
    let mut at: usize = 0;
    while at < outcomes.len()
        invariant
            at <= outcomes.len(),
            addrs@.to_set() == failed(outcomes@.subrange(0, at as int), sender),
        decreases outcomes.len() - at,
    {
        let outcome = outcomes[at];
        let ghost before = outcomes@.subrange(0, at as int);
        let ghost upto = outcomes@.subrange(0, at + 1);
        let ghost listed = addrs@;
        if !outcome.delivered && outcome.addr != sender {
            addrs.push(outcome.addr);
        }
        proof {
            assert forall|addr: PeerAddr| addrs@.to_set().contains(addr) <==> failed(
                upto,
                sender,
            ).contains(addr) by {
                if addrs@.to_set().contains(addr) {
                    let k = choose|k: int| 0 <= k < addrs@.len() && addrs@[k] == addr;
                    if k < listed.len() {
                        assert(listed[k] == addr);
                        assert(listed.to_set().contains(addr));
                        let i = choose|i: int|
                            0 <= i < before.len() && (#[trigger] before[i]).addr == addr
                                && !before[i].delivered;
                        assert(upto[i] == before[i]);
                    } else {
                        assert(upto[at as int] == outcome);
                    }
                }
                if failed(upto, sender).contains(addr) {
                    let i = choose|i: int|
                        0 <= i < upto.len() && (#[trigger] upto[i]).addr == addr
                            && !upto[i].delivered;
                    if i < at {
                        assert(before[i] == upto[i]);
                        assert(failed(before, sender).contains(addr));
                        assert(listed.contains(addr));
                        let k = choose|k: int| 0 <= k < listed.len() && listed[k] == addr;
                        assert(addrs@[k] == addr);
                    } else {
                        assert(addrs@[addrs@.len() - 1] == addr);
                    }
                }
            }
            assert(addrs@.to_set() =~= failed(upto, sender));
        }
        at = at + 1;
    }
    assert(outcomes@.subrange(0, at as int) =~= outcomes@);
    addrs
}

/// The writes that a message from `sender` asks for, given the entries of the
/// registry: the frame of the message, once to every entry but the sender's.
/// A message that has no frame asks for no write at all.
pub open spec fn writes_for(entries: Seq<ConnectionEntry>, sender: PeerAddr, message: MessageView)
    -> Result<(Seq<u8>, Seq<ConnectionEntry>), ChatError> {
    if payload_of(message).len() <= MAX_PAYLOAD {
        Ok((frame_of(payload_of(message)), remaining(entries, set![sender])))
    } else {
        Err(ChatError::PayloadTooLong)
    }
}

/// Says what a message from `sender_addr` asks to be written: its frame, once
/// to every registered client but the sender, in the order in which they were
/// registered. Every target is to be tried, however the writes before it went.
/// A message whose payload is too long for a frame is refused: nothing is to
/// be written to anyone.
pub fn broadcast(clients: &ClientRegistry, sender_addr: &PeerAddr, msg: &MessageType) -> (plan:
    Result<Broadcast, ChatError>)
    ensures
        match writes_for(clients.entries(), *sender_addr, msg@) {
            Ok((frame, targets)) => plan is Ok && plan->Ok_0.frame@ == frame
                && plan->Ok_0.targets@ == targets,
            Err(error) => plan == Err::<Broadcast, ChatError>(error),
        },
        plan matches Ok(writes) ==> distinct_addresses(writes.targets@) && !has_address(
            writes.targets@,
            *sender_addr,
        ),
{
    let mut frame: Vec<u8> = Vec::new();
    match msg.send_message(&mut frame) {
        Ok(()) => {},
        Err(error) => {
            return Err(error);
        },
    }
    let targets = clients.others(sender_addr);
    proof {
        lemma_remaining_members(clients.entries(), set![*sender_addr]);
        assert(frame@ =~= frame_of(payload_of(msg@)));
        if has_address(targets@, *sender_addr) {
            let i = choose|i: int|
                0 <= i < targets@.len() && (#[trigger] targets@[i]).addr == *sender_addr;
            assert(targets@.contains(targets@[i]));
        }
    }
    Ok(Broadcast { frame, targets })
}

/// Drops the clients to which a write failed, once all writes of a broadcast
/// from `sender_addr` have been tried, and hands back the entries that were
/// dropped, in the order in which they were registered. An outcome that names
/// the sender, or an address that is not registered, changes nothing.
pub fn evict_failed(
    clients: &mut ClientRegistry,
    sender_addr: &PeerAddr,
    outcomes: &Vec<Delivery>,
) -> (evicted: Vec<ConnectionEntry>)
    ensures
        final(clients).entries() == remaining(
            old(clients).entries(),
            failed(outcomes@, *sender_addr),
        ),
        final(clients)@ == old(clients)@.remove_keys(failed(outcomes@, *sender_addr)),
        evicted@ == remaining(
            old(clients).entries(),
            failed(outcomes@, *sender_addr).complement(),
        ),
{
    let gone = failed_addresses(outcomes, *sender_addr);
    clients.evict(&gone)
}

/// Sender exclusion: among the targets of a broadcast the sender does not
/// occur, and every other registered client occurs exactly once.
pub proof fn lemma_sender_excluded(entries: Seq<ConnectionEntry>, sender: PeerAddr)
    requires
        distinct_addresses(entries),
    ensures
        !has_address(remaining(entries, set![sender]), sender),
        distinct_addresses(remaining(entries, set![sender])),
        forall|entry: ConnectionEntry| #[trigger]
            remaining(entries, set![sender]).contains(entry) <==> entries.contains(entry)
                && entry.addr != sender,
{
    let targets = remaining(entries, set![sender]);
    lemma_remaining_members(entries, set![sender]);
    lemma_remaining_distinct(entries, set![sender]);
    if has_address(targets, sender) {
        let i = choose|i: int| 0 <= i < targets.len() && (#[trigger] targets[i]).addr == sender;
        assert(targets.contains(targets[i]));
    }
}

/// Dead-peer eviction: after the clients to which a write failed have been
/// dropped, none of them is registered, and every other client, the sender
/// among them, is registered as before.
pub proof fn lemma_dead_peers_evicted(
    entries: Seq<ConnectionEntry>,
    sender: PeerAddr,
    outcomes: Seq<Delivery>,
)
    requires
        distinct_addresses(entries),
    ensures
        forall|addr: PeerAddr| #[trigger]
            failed(outcomes, sender).contains(addr) ==> !has_address(
                remaining(entries, failed(outcomes, sender)),
                addr,
            ) && !mapping(remaining(entries, failed(outcomes, sender))).contains_key(addr),
        forall|entry: ConnectionEntry| #[trigger]
            entries.contains(entry) && !failed(outcomes, sender).contains(entry.addr)
                ==> remaining(entries, failed(outcomes, sender)).contains(entry),
        !failed(outcomes, sender).contains(sender),
        distinct_addresses(remaining(entries, failed(outcomes, sender))),
{
    let gone = failed(outcomes, sender);
    let left = remaining(entries, gone);
    lemma_remaining_members(entries, gone);
    lemma_remaining_distinct(entries, gone);
    lemma_mapping_domain(left);
    assert forall|addr: PeerAddr| #[trigger] gone.contains(addr) implies !has_address(left, addr)
        && !mapping(left).contains_key(addr) by {
        if has_address(left, addr) {
            let i = choose|i: int| 0 <= i < left.len() && (#[trigger] left[i]).addr == addr;
            assert(left.contains(left[i]));
        }
    }
}

} // verus!
