//! The registry of connected clients: which address is served through which
//! connection.

use vstd::prelude::*;

verus! {

/// The address of a client: its IP address as one number (an IPv4 address
/// stands as the IPv6 address that it is mapped to) and its port.
#[derive(Debug, Clone, Copy, PartialEq, Eq, Structural, Hash)]
pub struct PeerAddr {
    pub ip: u128,
    pub port: u16,
}

/// One connected client: its address and the handle of the connection that
/// leads to it. The handle is a number that whoever owns the connections gives
/// out; the registry only keeps it.
#[derive(Debug, Clone, Copy, PartialEq, Eq, Structural)]
pub struct ConnectionEntry {
    pub addr: PeerAddr,
    pub handle: u64,
}

/// Whether no address occurs twice among `entries`.
pub open spec fn distinct_addresses(entries: Seq<ConnectionEntry>) -> bool {
    forall|i: int, j: int|
        0 <= i < j < entries.len() ==> (#[trigger] entries[i]).addr != (#[trigger] entries[j]).addr
}

/// Whether one of `entries` has the address `addr`.
pub open spec fn has_address(entries: Seq<ConnectionEntry>, addr: PeerAddr) -> bool {
    exists|i: int| 0 <= i < entries.len() && (#[trigger] entries[i]).addr == addr
}

/// The entries whose address is not in `gone`, in the order they had.
pub open spec fn remaining(entries: Seq<ConnectionEntry>, gone: Set<PeerAddr>) -> Seq<
    ConnectionEntry,
>
    decreases entries.len(),
{
    if entries.len() == 0 {
        entries
    } else if gone.contains(entries.last().addr) {
        remaining(entries.drop_last(), gone)
    } else {
        remaining(entries.drop_last(), gone).push(entries.last())
    }
}

/// The entries as a mapping from address to handle. Where an address occurs
/// twice, the later entry counts.
pub open spec fn mapping(entries: Seq<ConnectionEntry>) -> Map<PeerAddr, u64>
    decreases entries.len(),
{
    if entries.len() == 0 {
        Map::empty()
    } else {
        mapping(entries.drop_last()).insert(entries.last().addr, entries.last().handle)
    }
}

/// What is left after some addresses have gone is taken from the entries that
/// were there: each one left was there, its address has not gone, and every
/// entry whose address has not gone is left.
pub proof fn lemma_remaining_members(entries: Seq<ConnectionEntry>, gone: Set<PeerAddr>)
    ensures
        forall|entry: ConnectionEntry| #[trigger]
            remaining(entries, gone).contains(entry) <==> entries.contains(entry) && !gone.contains(
                entry.addr,
            ),
        remaining(entries, gone).len() <= entries.len(),
    decreases entries.len(),
{
    let left = remaining(entries, gone);
    if entries.len() > 0 {
        let before = entries.drop_last();
        let last = entries.last();
        lemma_remaining_members(before, gone);
        assert forall|entry: ConnectionEntry| #[trigger]
            left.contains(entry) <==> entries.contains(entry) && !gone.contains(
                entry.addr,
            ) by {
            if left.contains(entry) {
                let i = choose|i: int| 0 <= i < left.len() && left[i] == entry;
                if i < remaining(before, gone).len() {
                    assert(remaining(before, gone).contains(entry));
                    let j = choose|j: int| 0 <= j < before.len() && before[j] == entry;
                    assert(entries[j] == entry);
                } else {
                    assert(entry == last);
                    assert(entries[entries.len() - 1] == entry);
                }
            }
            if entries.contains(entry) && !gone.contains(entry.addr) {
                let j = choose|j: int| 0 <= j < entries.len() && entries[j] == entry;
                if j < before.len() {
                    assert(before[j] == entry);
                    assert(remaining(before, gone).contains(entry));
                    let i = choose|i: int|
                        0 <= i < remaining(before, gone).len() && remaining(before, gone)[i]
                            == entry;
                    assert(left[i] == entry);
                } else {
                    assert(left[left.len() - 1] == entry);
                }
            }
        }
    }
}

/// Where no address occurred twice, none does after some have gone.
pub proof fn lemma_remaining_distinct(entries: Seq<ConnectionEntry>, gone: Set<PeerAddr>)
    requires
        distinct_addresses(entries),
    ensures
        distinct_addresses(remaining(entries, gone)),
    decreases entries.len(),
{
    if entries.len() > 0 {
        let before = entries.drop_last();
        let last = entries.last();
        let left = remaining(before, gone);
        assert(distinct_addresses(before)) by {
            assert forall|i: int, j: int| 0 <= i < j < before.len() implies (#[trigger] before[i]).addr
                != (#[trigger] before[j]).addr by {
                assert(entries[i] == before[i] && entries[j] == before[j]);
            }
        }
        lemma_remaining_distinct(before, gone);
        if !gone.contains(last.addr) {
            lemma_remaining_members(before, gone);
            let longer = left.push(last);
            assert forall|i: int, j: int| 0 <= i < j < longer.len() implies (#[trigger] longer[i]).addr
                != (#[trigger] longer[j]).addr by {
                if j == left.len() {
                    assert(left.contains(left[i]));
                    assert(before.contains(left[i]));
                    let k = choose|k: int| 0 <= k < before.len() && before[k] == left[i];
                    assert(entries[k] == left[i]);
                    assert(entries[entries.len() - 1] == last);
                } else {
                    assert(longer[i] == left[i] && longer[j] == left[j]);
                }
            }
        }
    }
}

/// As a mapping, what is left after some addresses have gone is the mapping
/// without those addresses.
pub proof fn lemma_remaining_mapping(entries: Seq<ConnectionEntry>, gone: Set<PeerAddr>)
    ensures
        mapping(remaining(entries, gone)) == mapping(entries).remove_keys(gone),
    decreases entries.len(),
{
    if entries.len() == 0 {
        assert(mapping(entries).remove_keys(gone) =~= Map::<PeerAddr, u64>::empty());
    } else {
        let before = entries.drop_last();
        let last = entries.last();
        lemma_remaining_mapping(before, gone);
        if gone.contains(last.addr) {
            assert(mapping(entries).remove_keys(gone) =~= mapping(before).remove_keys(gone));
        } else {
            assert(remaining(before, gone).push(last).drop_last() =~= remaining(before, gone));
            assert(mapping(entries).remove_keys(gone) =~= mapping(before).remove_keys(gone).insert(
                last.addr,
                last.handle,
            ));
        }
    }
}

/// The addresses of the mapping are the addresses of the entries.
pub proof fn lemma_mapping_domain(entries: Seq<ConnectionEntry>)
    ensures
        forall|addr: PeerAddr| #[trigger]
            mapping(entries).contains_key(addr) <==> has_address(entries, addr),
        mapping(entries).dom().finite(),
    decreases entries.len(),
{
    if entries.len() > 0 {
        let before = entries.drop_last();
        lemma_mapping_domain(before);
        assert forall|addr: PeerAddr| #[trigger]
            mapping(entries).contains_key(addr) <==> has_address(entries, addr) by {
            if has_address(entries, addr) {
                let i = choose|i: int| 0 <= i < entries.len() && (#[trigger] entries[i]).addr == addr;
                if i < before.len() {
                    assert(before[i].addr == addr);
                    assert(has_address(before, addr));
                }
            }
            if mapping(entries).contains_key(addr) {
                if addr == entries.last().addr {
                    assert(entries[entries.len() - 1].addr == addr);
                } else {
                    assert(has_address(before, addr));
                    let i = choose|i: int| 0 <= i < before.len() && (#[trigger] before[i]).addr == addr;
                    assert(entries[i].addr == addr);
                }
            }
        }
    }
}

/// Where no address occurs twice, the mapping gives each entry's address its
/// handle.
pub proof fn lemma_mapping_lookup(entries: Seq<ConnectionEntry>, at: int)
    requires
        distinct_addresses(entries),
        0 <= at < entries.len(),
    ensures
        mapping(entries).contains_key(entries[at].addr),
        mapping(entries)[entries[at].addr] == entries[at].handle,
    decreases entries.len(),
{
    let before = entries.drop_last();
    if at < entries.len() - 1 {
        assert(entries[at].addr != entries[entries.len() - 1].addr);
        assert forall|i: int, j: int| 0 <= i < j < before.len() implies (#[trigger] before[i]).addr
            != (#[trigger] before[j]).addr by {
            assert(entries[i] == before[i] && entries[j] == before[j]);
        }
        assert(before[at] == entries[at]);
        lemma_mapping_lookup(before, at);
    }
}

/// Whether `addr` is one of `addrs`.
fn is_among(addrs: &Vec<PeerAddr>, addr: PeerAddr) -> (found: bool)
    ensures
        found <==> addrs@.to_set().contains(addr),
{
    let mut at: usize = 0;
    while at < addrs.len()
        invariant
            at <= addrs.len(),
            forall|i: int| 0 <= i < at ==> addrs[i] != addr,
        decreases addrs.len() - at,
    {
        if addrs[at] == addr {
            assert(addrs@.contains(addr));
            return true;
        }
        at = at + 1;
    }
    assert(!addrs@.contains(addr));
    false
}

/// The one address `addr`, as a list.
fn only(addr: PeerAddr) -> (addrs: Vec<PeerAddr>)
    ensures
        addrs@.to_set() == set![addr],
{
    let mut addrs: Vec<PeerAddr> = Vec::new();
    addrs.push(addr);
    assert forall|other: PeerAddr| addrs@.to_set().contains(other) <==> set![addr].contains(
        other,
    ) by {
        if other == addr {
            assert(addrs@[0] == other);
        }
    }
    assert(addrs@.to_set() =~= set![addr]);
    addrs
}

/// Parts `entries` in two: those whose address is not among `gone`, and those
/// whose address is.
fn part_entries(entries: &Vec<ConnectionEntry>, gone: &Vec<PeerAddr>) -> (parts: (
    Vec<ConnectionEntry>,
    Vec<ConnectionEntry>,
))
    ensures
        parts.0@ == remaining(entries@, gone@.to_set()),
        parts.1@ == remaining(entries@, gone@.to_set().complement()),
{
    let mut kept: Vec<ConnectionEntry> = Vec::new();
    let mut dropped: Vec<ConnectionEntry> = Vec::new();
    let mut at: usize = 0;
    while at < entries.len()
        invariant
            at <= entries.len(),
            kept@ == remaining(entries@.subrange(0, at as int), gone@.to_set()),
            dropped@ == remaining(entries@.subrange(0, at as int), gone@.to_set().complement()),
        decreases entries.len() - at,
    {
        let entry = entries[at];
        assert(entries@.subrange(0, at + 1).drop_last() =~= entries@.subrange(0, at as int));
        if is_among(gone, entry.addr) {
            dropped.push(entry);
        } else {
            kept.push(entry);
        }
        at = at + 1;
    }
    assert(entries@.subrange(0, at as int) =~= entries@);
    (kept, dropped)
}

/// The clients that are connected now. No address is held twice.
pub struct ClientRegistry {
    entries: Vec<ConnectionEntry>,
}

impl View for ClientRegistry {
    type V = Map<PeerAddr, u64>;

    /// The registry as a mapping from address to handle.
    open spec fn view(&self) -> Map<PeerAddr, u64> {
        mapping(self.entries())
    }
}

impl ClientRegistry {
    #[verifier::type_invariant]
    spec fn well_formed(self) -> bool {
        distinct_addresses(self.entries@)
    }

    /// The entries of the registry, in the order in which they were registered.
    pub closed spec fn entries(&self) -> Seq<ConnectionEntry> {
        self.entries@
    }

    /// A registry without clients.
    pub fn new() -> (registry: ClientRegistry)
        ensures
            registry.entries() == Seq::<ConnectionEntry>::empty(),
            registry@ == Map::<PeerAddr, u64>::empty(),
    {
        ClientRegistry { entries: Vec::new() }
    }

    /// The number of clients.
    pub fn len(&self) -> (count: usize)
        ensures
            count == self.entries().len(),
    {
        self.entries.len()
    }

    /// The handle that `addr` is registered with, if it is registered.
    pub fn get(&self, addr: &PeerAddr) -> (handle: Option<u64>)
        ensures
            handle == if self@.contains_key(*addr) {
                Some(self@[*addr])
            } else {
                None
            },
            handle is Some <==> has_address(self.entries(), *addr),
    {
        proof {
            use_type_invariant(self);
            lemma_mapping_domain(self.entries@);
        }
        let mut at: usize = 0;
        while at < self.entries.len()
            invariant
                at <= self.entries.len(),
                forall|i: int| 0 <= i < at ==> self.entries[i].addr != *addr,
            decreases self.entries.len() - at,
        {
            if self.entries[at].addr == *addr {
                proof {
                    use_type_invariant(self);
                    lemma_mapping_lookup(self.entries@, at as int);
                }
                return Some(self.entries[at].handle);
            }
            at = at + 1;
        }
        None
    }

    /// Registers a client. An entry that `addr` had before is replaced.
    pub fn register(&mut self, addr: PeerAddr, handle: u64)
        ensures
            final(self).entries() == remaining(old(self).entries(), set![addr]).push(
                ConnectionEntry { addr, handle },
            ),
            final(self)@ == old(self)@.insert(addr, handle),
    {
        proof {
            use_type_invariant(&*self);
        }
        let gone = only(addr);
        let (mut kept, _) = part_entries(&self.entries, &gone);
        proof {
            lemma_remaining_distinct(self.entries@, set![addr]);
            lemma_remaining_members(self.entries@, set![addr]);
            lemma_remaining_mapping(self.entries@, set![addr]);
            assert forall|i: int| 0 <= i < kept@.len() implies (#[trigger] kept@[i]).addr
                != addr by {
                assert(kept@.contains(kept@[i]));
            }
            assert(kept@.push(ConnectionEntry { addr, handle }).drop_last() =~= kept@);
            assert(mapping(self.entries@).remove_keys(set![addr]).insert(addr, handle)
                =~= mapping(self.entries@).insert(addr, handle));
        }
        kept.push(ConnectionEntry { addr, handle });
        self.entries = kept;
    }

    /// Takes a client out of the registry and hands back the handle that it
    /// was registered with. Where `addr` is not registered nothing changes.
    pub fn unregister(&mut self, addr: &PeerAddr) -> (removed: Option<u64>)
        ensures
            final(self).entries() == remaining(old(self).entries(), set![*addr]),
            final(self)@ == old(self)@.remove(*addr),
            removed == if old(self)@.contains_key(*addr) {
                Some(old(self)@[*addr])
            } else {
                None
            },
    {
        proof {
            use_type_invariant(&*self);
        }
        let removed = self.get(addr);
        let gone = only(*addr);
        let (kept, _) = part_entries(&self.entries, &gone);
        proof {
            lemma_remaining_distinct(self.entries@, set![*addr]);
            lemma_remaining_mapping(self.entries@, set![*addr]);
            assert(mapping(self.entries@).remove_keys(set![*addr]) =~= mapping(
                self.entries@,
            ).remove(*addr));
        }
        self.entries = kept;
        removed
    }

    /// Every entry but the one of `addr`, in the order in which they were
    /// registered.
    pub fn others(&self, addr: &PeerAddr) -> (entries: Vec<ConnectionEntry>)
        ensures
            entries@ == remaining(self.entries(), set![*addr]),
            distinct_addresses(entries@),
    {
        proof {
            use_type_invariant(self);
            lemma_remaining_distinct(self.entries@, set![*addr]);
        }
        let gone = only(*addr);
        let (entries, _) = part_entries(&self.entries, &gone);
        entries
    }

    /// Takes out every client whose address is among `gone` and hands back the
    /// entries that were taken out, in the order in which they were
    /// registered. An address that is not registered changes nothing.
    pub fn evict(&mut self, gone: &Vec<PeerAddr>) -> (evicted: Vec<ConnectionEntry>)
        ensures
            final(self).entries() == remaining(old(self).entries(), gone@.to_set()),
            final(self)@ == old(self)@.remove_keys(gone@.to_set()),
            evicted@ == remaining(old(self).entries(), gone@.to_set().complement()),
    {
        proof {
            use_type_invariant(&*self);
            lemma_remaining_distinct(self.entries@, gone@.to_set());
            lemma_remaining_mapping(self.entries@, gone@.to_set());
        }
        let (kept, dropped) = part_entries(&self.entries, gone);
        self.entries = kept;
        dropped
    }

    /// The entries as they are now, in the order in which they were
    /// registered. What happens to the registry later does not touch them.
    pub fn snapshot(&self) -> (entries: Vec<ConnectionEntry>)
        ensures
            entries@ == self.entries(),
            distinct_addresses(entries@),
    {
        proof {
            use_type_invariant(self);
        }
        let none: Vec<PeerAddr> = Vec::new();
        assert(none@.to_set() =~= Set::<PeerAddr>::empty());
        let (entries, _) = part_entries(&self.entries, &none);
        proof {
            lemma_nothing_gone(self.entries@);
        }
        entries
    }
}

/// Where no address has gone, all entries are left.
pub proof fn lemma_nothing_gone(entries: Seq<ConnectionEntry>)
    ensures
        remaining(entries, Set::empty()) == entries,
    decreases entries.len(),
{
    if entries.len() > 0 {
        lemma_nothing_gone(entries.drop_last());
        assert(entries.drop_last().push(entries.last()) =~= entries);
    }
}

/// Where none of the entries has an address that has gone, all are left.
pub proof fn lemma_remaining_unchanged(entries: Seq<ConnectionEntry>, gone: Set<PeerAddr>)
    requires
        forall|i: int| 0 <= i < entries.len() ==> !gone.contains((#[trigger] entries[i]).addr),
    ensures
        remaining(entries, gone) == entries,
    decreases entries.len(),
{
    if entries.len() > 0 {
        let before = entries.drop_last();
        assert forall|i: int| 0 <= i < before.len() implies !gone.contains(
            (#[trigger] before[i]).addr,
        ) by {
            assert(before[i] == entries[i]);
        }
        lemma_remaining_unchanged(before, gone);
        assert(!gone.contains(entries[entries.len() - 1].addr));
        assert(before.push(entries.last()) =~= entries);
    }
}

/// Idempotent unregister: to unregister an address that is not registered
/// changes nothing, so to unregister an address twice is to unregister it once.
pub proof fn lemma_unregister_idempotent(entries: Seq<ConnectionEntry>, addr: PeerAddr)
    ensures
        !has_address(entries, addr) ==> remaining(entries, set![addr]) == entries,
        !has_address(remaining(entries, set![addr]), addr),
        remaining(remaining(entries, set![addr]), set![addr]) == remaining(entries, set![addr]),
        mapping(remaining(entries, set![addr])) == mapping(entries).remove(addr),
        mapping(entries).remove(addr).remove(addr) == mapping(entries).remove(addr),
{
    let once = remaining(entries, set![addr]);
    lemma_remaining_members(entries, set![addr]);
    lemma_remaining_mapping(entries, set![addr]);
    assert(mapping(entries).remove_keys(set![addr]) =~= mapping(entries).remove(addr));
    assert(mapping(entries).remove(addr).remove(addr) =~= mapping(entries).remove(addr));
    assert forall|i: int| 0 <= i < once.len() implies !set![addr].contains(
        (#[trigger] once[i]).addr,
    ) by {
        assert(once.contains(once[i]));
    }
    lemma_remaining_unchanged(once, set![addr]);
    if !has_address(entries, addr) {
        lemma_remaining_unchanged(entries, set![addr]);
    }
}

} // verus!
