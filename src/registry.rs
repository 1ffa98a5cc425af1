use vstd::prelude::*;

use crate::amount::{from_parts_spec, Amount, AmountModel};
use crate::error::ContractError;

verus! {

/// Static data of a channel, fixed when the channel opens.
#[derive(Debug)]
pub struct ChannelInfo {
    pub id: String,
    pub counterparty_port: String,
    pub counterparty_channel: String,
    pub connection_id: String,
    pub version: String,
}

/// The counters of one channel and denomination.
#[derive(Clone, Copy, Debug, PartialEq, Eq, Structural)]
pub struct ChannelState {
    /// Sent and not yet settled.
    pub outstanding: u128,
    /// Sent, less what came back on failure or timeout.
    pub total_sent: u128,
}

pub struct StateEntry {
    pub channel: String,
    pub denom: String,
    pub state: ChannelState,
}

/// Where a sent packet stands in its lifecycle.
#[derive(Clone, Copy, Debug, PartialEq, Eq, Structural)]
pub enum PacketStatus {
    Sent,
    Acked,
    Failed,
    TimedOut,
}

/// How the other chain answered a sent packet.
#[derive(Clone, Copy, Debug, PartialEq, Eq, Structural)]
pub enum Outcome {
    Success,
    Failure,
    Timeout,
}

pub struct PacketRecord {
    pub channel: String,
    pub sequence: u64,
    pub denom: String,
    pub amount: u128,
    pub status: PacketStatus,
}

/// The channels, their counters per denomination, and the packets sent over them.
pub struct Registry {
    pub infos: Vec<ChannelInfo>,
    pub states: Vec<StateEntry>,
    pub packets: Vec<PacketRecord>,
}

pub open spec fn zero_state() -> ChannelState {
    ChannelState { outstanding: 0, total_sent: 0 }
}

impl Registry {
    pub open spec fn state_key(&self, i: int) -> (Seq<char>, Seq<char>) {
        (self.states@[i].channel@, self.states@[i].denom@)
    }

    pub open spec fn packet_key(&self, i: int) -> (Seq<char>, u64) {
        (self.packets@[i].channel@, self.packets@[i].sequence)
    }

    pub open spec fn has_channel(&self, id: Seq<char>) -> bool {
        exists|i: int| 0 <= i < self.infos@.len() && (#[trigger] self.infos@[i]).id@ == id
    }

    pub open spec fn has_state(&self, ch: Seq<char>, d: Seq<char>) -> bool {
        exists|i: int| 0 <= i < self.states@.len() && #[trigger] self.state_key(i) == (ch, d)
    }

    /// The counters of a channel and denomination: zero where none were recorded.
    pub open spec fn state_of(&self, ch: Seq<char>, d: Seq<char>) -> ChannelState {
        if self.has_state(ch, d) {
            self.states@[choose|i: int|
                0 <= i < self.states@.len() && #[trigger] self.state_key(i) == (ch, d)].state
        } else {
            zero_state()
        }
    }

    pub open spec fn has_packet(&self, ch: Seq<char>, sequence: u64) -> bool {
        exists|i: int| 0 <= i < self.packets@.len() && #[trigger] self.packet_key(i) == (ch, sequence)
    }

    /// The record of the packet sent with this sequence over this channel.
    pub open spec fn packet_of(&self, ch: Seq<char>, sequence: u64) -> PacketRecord
        recommends
            self.has_packet(ch, sequence),
    {
        self.packets@[choose|i: int|
            0 <= i < self.packets@.len() && #[trigger] self.packet_key(i) == (ch, sequence)]
    }

    pub open spec fn states_unique(&self) -> bool {
        forall|i: int, j: int|
            #![trigger self.states@[i], self.states@[j]]
            0 <= i < j < self.states@.len() ==> self.state_key(i) != self.state_key(j)
    }

    pub open spec fn packets_unique(&self) -> bool {
        forall|i: int, j: int|
            #![trigger self.packets@[i], self.packets@[j]]
            0 <= i < j < self.packets@.len() ==> self.packet_key(i) != self.packet_key(j)
    }

    /// Keys are unique, and no counter of unsettled amounts exceeds the total sent.
    pub open spec fn wf_core(&self) -> bool {
        &&& self.states_unique()
        &&& self.packets_unique()
        &&& forall|i: int|
            0 <= i < self.states@.len() ==> (#[trigger] self.states@[i]).state.outstanding
                <= self.states@[i].state.total_sent
    }

    /// Every outstanding counter covers the packets of its channel and denomination that
    /// are sent and not yet settled.
    pub open spec fn covered(&self) -> bool {
        forall|c: Seq<char>, e: Seq<char>|
            #[trigger] self.state_of(c, e).outstanding >= sent_sum(self.packets@, c, e)
    }

    /// The core invariant, and every outstanding counter covers the unsettled packets.
    pub open spec fn wf(&self) -> bool {
        self.wf_core() && self.covered()
    }

    /// Every counter but that of `(ch, d)` is the same in `b` as in `a`, and so are the
    /// channels.
    pub open spec fn same_states_except(a: Registry, b: Registry, ch: Seq<char>, d: Seq<char>) -> bool {
        &&& b.infos@ == a.infos@
        &&& forall|c: Seq<char>, e: Seq<char>|
            (c, e) != (ch, d) ==> #[trigger] b.state_of(c, e) == a.state_of(c, e)
    }

    /// Every packet record but that of `(ch, sequence)` is the same in `b` as in `a`.
    pub open spec fn same_packets_except(a: Registry, b: Registry, ch: Seq<char>, sequence: u64) -> bool {
        forall|c: Seq<char>, s: u64|
            (c, s) != (ch, sequence) ==> (#[trigger] b.has_packet(c, s) == a.has_packet(c, s)
                && (a.has_packet(c, s) ==> b.packet_of(c, s) == a.packet_of(c, s)))
    }

    /// `b` is `a` after a send of `amount` in `d` over `ch` with this sequence: both counters
    /// grew by the amount, and the packet is tracked as sent.
    pub open spec fn sent(a: Registry, b: Registry, ch: Seq<char>, d: Seq<char>, amount: u128, sequence: u64) -> bool {
        &&& b.state_of(ch, d).outstanding == a.state_of(ch, d).outstanding + amount
        &&& b.state_of(ch, d).total_sent == a.state_of(ch, d).total_sent + amount
        &&& Self::same_states_except(a, b, ch, d)
        &&& b.has_packet(ch, sequence)
        &&& b.packet_of(ch, sequence).denom@ == d
        &&& b.packet_of(ch, sequence).amount == amount
        &&& b.packet_of(ch, sequence).status == PacketStatus::Sent
        &&& Self::same_packets_except(a, b, ch, sequence)
    }

    /// `b` is `a` after the packet `(ch, sequence)` was settled with `outcome`.
    pub open spec fn settled(a: Registry, b: Registry, ch: Seq<char>, sequence: u64, outcome: Outcome) -> bool {
        let p = a.packet_of(ch, sequence);
        let d = p.denom@;
        let before = a.state_of(ch, d);
        &&& b.state_of(ch, d).outstanding == before.outstanding - p.amount
        &&& b.state_of(ch, d).total_sent == (if outcome == Outcome::Success {
            before.total_sent as int
        } else {
            before.total_sent - p.amount
        })
        &&& Self::same_states_except(a, b, ch, d)
        &&& b.has_packet(ch, sequence)
        &&& b.packet_of(ch, sequence).denom@ == d
        &&& b.packet_of(ch, sequence).amount == p.amount
        &&& b.packet_of(ch, sequence).status == status_after(outcome)
        &&& Self::same_packets_except(a, b, ch, sequence)
    }

    /// What settling the packet `(ch, sequence)` with `outcome` does: `a` and `b` are the
    /// registry before and after, `r` the result.
    pub open spec fn reconcile_spec(
        a: Registry,
        b: Registry,
        ch: Seq<char>,
        sequence: u64,
        outcome: Outcome,
        r: Result<(), ContractError>,
    ) -> bool {
        &&& r is Err ==> b == a
        &&& if !a.awaiting(ch, sequence) {
            r == Err::<(), ContractError>(ContractError::UnknownOrDuplicatePacket)
        } else {
            r is Ok && Registry::settled(a, b, ch, sequence, outcome)
        }
    }

    /// Whether the packet `(ch, sequence)` was sent and is not yet settled.
    pub open spec fn awaiting(&self, ch: Seq<char>, sequence: u64) -> bool {
        self.has_packet(ch, sequence) && self.packet_of(ch, sequence).status == PacketStatus::Sent
    }
}

/// The sum of the amounts of the packets in `ps` sent over `ch` in `d` and not yet settled.
pub open spec fn sent_sum(ps: Seq<PacketRecord>, ch: Seq<char>, d: Seq<char>) -> nat
    decreases ps.len(),
{
    if ps.len() == 0 {
        0
    } else {
        let p = ps.last();
        sent_sum(ps.drop_last(), ch, d) + if p.channel@ == ch && p.denom@ == d && p.status
            == PacketStatus::Sent {
            p.amount as nat
        } else {
            0
        }
    }
}

proof fn lemma_sent_sum_push(ps: Seq<PacketRecord>, p: PacketRecord, ch: Seq<char>, d: Seq<char>)
    ensures
        sent_sum(ps.push(p), ch, d) == sent_sum(ps, ch, d) + if p.channel@ == ch && p.denom@ == d
            && p.status == PacketStatus::Sent {
            p.amount as nat
        } else {
            0
        },
{
    assert(ps.push(p).drop_last() =~= ps);
}

/// A packet still sent counts towards the sum of its channel and denomination.
proof fn lemma_sent_sum_le(ps: Seq<PacketRecord>, i: int)
    requires
        0 <= i < ps.len(),
        ps[i].status == PacketStatus::Sent,
    ensures
        ps[i].amount <= sent_sum(ps, ps[i].channel@, ps[i].denom@),
    decreases ps.len(),
{
    if i < ps.len() - 1 {
        lemma_sent_sum_le(ps.drop_last(), i);
    }
}

/// Settling the packet at `i` takes its amount out of the sum of its key.
proof fn lemma_sent_sum_settle(ps: Seq<PacketRecord>, i: int, q: PacketRecord, ch: Seq<char>, d: Seq<char>)
    requires
        0 <= i < ps.len(),
        ps[i].status == PacketStatus::Sent,
        q.status != PacketStatus::Sent,
        q.channel@ == ps[i].channel@,
        q.denom@ == ps[i].denom@,
        q.amount == ps[i].amount,
    ensures
        sent_sum(ps.update(i, q), ch, d) + (if ps[i].channel@ == ch && ps[i].denom@ == d {
            ps[i].amount as nat
        } else {
            0
        }) == sent_sum(ps, ch, d),
    decreases ps.len(),
{
    if i == ps.len() - 1 {
        assert(ps.update(i, q).drop_last() =~= ps.drop_last());
    } else {
        assert(ps.update(i, q).drop_last() =~= ps.drop_last().update(i, q));
        lemma_sent_sum_settle(ps.drop_last(), i, q, ch, d);
    }
}

/// A prefix sums to no more than the whole.
proof fn lemma_sent_sum_prefix(ps: Seq<PacketRecord>, j: int, ch: Seq<char>, d: Seq<char>)
    requires
        0 <= j <= ps.len(),
    ensures
        sent_sum(ps.subrange(0, j), ch, d) <= sent_sum(ps, ch, d),
    decreases ps.len(),
{
    if j < ps.len() {
        assert(ps.drop_last().subrange(0, j) =~= ps.subrange(0, j));
        lemma_sent_sum_prefix(ps.drop_last(), j, ch, d);
    } else {
        assert(ps.subrange(0, j) =~= ps);
    }
}

/// The sum of a key is zero where every unsettled packet of that key carries nothing.
proof fn lemma_sent_sum_zero(ps: Seq<PacketRecord>, ch: Seq<char>, d: Seq<char>)
    requires
        forall|j: int|
            0 <= j < ps.len() && (#[trigger] ps[j]).status == PacketStatus::Sent && ps[j].channel@
                == ch && ps[j].denom@ == d ==> ps[j].amount == 0,
    ensures
        sent_sum(ps, ch, d) == 0,
    decreases ps.len(),
{
    if ps.len() > 0 {
        assert forall|j: int|
            0 <= j < ps.drop_last().len() && (#[trigger] ps.drop_last()[j]).status == PacketStatus::Sent
                && ps.drop_last()[j].channel@ == ch && ps.drop_last()[j].denom@ == d implies ps.drop_last()[j].amount
                == 0 by {
            assert(ps.drop_last()[j] == ps[j]);
        }
        lemma_sent_sum_zero(ps.drop_last(), ch, d);
    }
}

/// The terminal status that an outcome leads to.
pub open spec fn status_after(outcome: Outcome) -> PacketStatus {
    match outcome {
        Outcome::Success => PacketStatus::Acked,
        Outcome::Failure => PacketStatus::Failed,
        Outcome::Timeout => PacketStatus::TimedOut,
    }
}

proof fn lemma_state_at(r: Registry, i: int)
    requires
        r.states_unique(),
        0 <= i < r.states@.len(),
    ensures
        r.has_state(r.state_key(i).0, r.state_key(i).1),
        r.state_of(r.state_key(i).0, r.state_key(i).1) == r.states@[i].state,
{
    let k = r.state_key(i);
    assert(r.has_state(k.0, k.1));
    let j = choose|j: int| 0 <= j < r.states@.len() && #[trigger] r.state_key(j) == (k.0, k.1);
    if j < i {
        assert(r.state_key(j) != r.state_key(i));
    } else if i < j {
        assert(r.state_key(i) != r.state_key(j));
    }
}

proof fn lemma_packet_at(r: Registry, i: int)
    requires
        r.packets_unique(),
        0 <= i < r.packets@.len(),
    ensures
        r.has_packet(r.packet_key(i).0, r.packet_key(i).1),
        r.packet_of(r.packet_key(i).0, r.packet_key(i).1) == r.packets@[i],
{
    let k = r.packet_key(i);
    assert(r.has_packet(k.0, k.1));
    let j = choose|j: int| 0 <= j < r.packets@.len() && #[trigger] r.packet_key(j) == (k.0, k.1);
    if j < i {
        assert(r.packet_key(j) != r.packet_key(i));
    } else if i < j {
        assert(r.packet_key(i) != r.packet_key(j));
    }
}

/// Replacing the counters at one index keeps every other key's counters.
proof fn lemma_state_update(a: Registry, b: Registry, i: int)
    requires
        a.wf_core(),
        b.wf_core(),
        0 <= i < a.states@.len(),
        b.states@.len() == a.states@.len(),
        forall|j: int| 0 <= j < a.states@.len() ==> #[trigger] b.state_key(j) == a.state_key(j),
        forall|j: int| 0 <= j < a.states@.len() && j != i ==> #[trigger] b.states@[j] == a.states@[j],
        b.infos@ == a.infos@,
    ensures
        Registry::same_states_except(a, b, a.state_key(i).0, a.state_key(i).1),
        b.state_of(a.state_key(i).0, a.state_key(i).1) == b.states@[i].state,
{
    lemma_state_at(b, i);
    assert forall|c: Seq<char>, e: Seq<char>|
        (c, e) != (a.state_key(i).0, a.state_key(i).1) implies #[trigger] b.state_of(c, e) == a.state_of(c, e) by {
        if a.has_state(c, e) {
            let j = choose|j: int| 0 <= j < a.states@.len() && #[trigger] a.state_key(j) == (c, e);
            lemma_state_at(a, j);
            lemma_state_at(b, j);
        } else {
            if b.has_state(c, e) {
                let j = choose|j: int| 0 <= j < b.states@.len() && #[trigger] b.state_key(j) == (c, e);
                assert(a.state_key(j) == (c, e));
            }
        }
    }
}

/// Replacing the record at one index keeps every other packet's record.
proof fn lemma_packet_update(a: Registry, b: Registry, i: int)
    requires
        a.wf_core(),
        b.wf_core(),
        0 <= i < a.packets@.len(),
        b.packets@.len() == a.packets@.len(),
        forall|j: int| 0 <= j < a.packets@.len() ==> #[trigger] b.packet_key(j) == a.packet_key(j),
        forall|j: int| 0 <= j < a.packets@.len() && j != i ==> #[trigger] b.packets@[j] == a.packets@[j],
    ensures
        Registry::same_packets_except(a, b, a.packet_key(i).0, a.packet_key(i).1),
        b.has_packet(a.packet_key(i).0, a.packet_key(i).1),
        b.packet_of(a.packet_key(i).0, a.packet_key(i).1) == b.packets@[i],
{
    lemma_packet_at(b, i);
    assert forall|c: Seq<char>, s: u64|
        (c, s) != (a.packet_key(i).0, a.packet_key(i).1) implies (#[trigger] b.has_packet(c, s)
            == a.has_packet(c, s) && (a.has_packet(c, s) ==> b.packet_of(c, s) == a.packet_of(c, s))) by {
        if a.has_packet(c, s) {
            let j = choose|j: int| 0 <= j < a.packets@.len() && #[trigger] a.packet_key(j) == (c, s);
            lemma_packet_at(a, j);
            lemma_packet_at(b, j);
        }
        if b.has_packet(c, s) {
            let j = choose|j: int| 0 <= j < b.packets@.len() && #[trigger] b.packet_key(j) == (c, s);
            assert(a.packet_key(j) == (c, s));
        }
    }
}

/// Appending counters for a new key keeps every other key's counters.
proof fn lemma_state_push(a: Registry, b: Registry, ch: Seq<char>, d: Seq<char>)
    requires
        a.wf_core(),
        b.wf_core(),
        !a.has_state(ch, d),
        b.states@.len() == a.states@.len() + 1,
        b.state_key(a.states@.len() as int) == (ch, d),
        forall|j: int| 0 <= j < a.states@.len() ==> #[trigger] b.states@[j] == a.states@[j],
        b.infos@ == a.infos@,
    ensures
        Registry::same_states_except(a, b, ch, d),
        b.state_of(ch, d) == b.states@[a.states@.len() as int].state,
{
    lemma_state_at(b, a.states@.len() as int);
    assert forall|c: Seq<char>, e: Seq<char>|
        (c, e) != (ch, d) implies #[trigger] b.state_of(c, e) == a.state_of(c, e) by {
        if a.has_state(c, e) {
            let j = choose|j: int| 0 <= j < a.states@.len() && #[trigger] a.state_key(j) == (c, e);
            lemma_state_at(a, j);
            assert(b.state_key(j) == a.state_key(j));
            lemma_state_at(b, j);
        } else if b.has_state(c, e) {
            let j = choose|j: int| 0 <= j < b.states@.len() && #[trigger] b.state_key(j) == (c, e);
            assert(a.state_key(j) == (c, e));
        }
    }
}

/// Appending a record for a new packet keeps every other packet's record.
proof fn lemma_packet_push(a: Registry, b: Registry, ch: Seq<char>, sequence: u64)
    requires
        a.wf_core(),
        b.wf_core(),
        !a.has_packet(ch, sequence),
        b.packets@.len() == a.packets@.len() + 1,
        b.packet_key(a.packets@.len() as int) == (ch, sequence),
        forall|j: int| 0 <= j < a.packets@.len() ==> #[trigger] b.packets@[j] == a.packets@[j],
    ensures
        Registry::same_packets_except(a, b, ch, sequence),
        b.has_packet(ch, sequence),
        b.packet_of(ch, sequence) == b.packets@[a.packets@.len() as int],
{
    lemma_packet_at(b, a.packets@.len() as int);
    assert forall|c: Seq<char>, s: u64|
        (c, s) != (ch, sequence) implies (#[trigger] b.has_packet(c, s) == a.has_packet(c, s)
            && (a.has_packet(c, s) ==> b.packet_of(c, s) == a.packet_of(c, s))) by {
        if a.has_packet(c, s) {
            let j = choose|j: int| 0 <= j < a.packets@.len() && #[trigger] a.packet_key(j) == (c, s);
            lemma_packet_at(a, j);
            assert(b.packet_key(j) == a.packet_key(j));
            lemma_packet_at(b, j);
        }
        if b.has_packet(c, s) {
            let j = choose|j: int| 0 <= j < b.packets@.len() && #[trigger] b.packet_key(j) == (c, s);
            assert(a.packet_key(j) == (c, s));
        }
    }
}

impl Registry {
    pub fn new() -> (r: Registry)
        ensures
            r.wf(),
            forall|id: Seq<char>| !r.has_channel(id),
            forall|ch: Seq<char>, d: Seq<char>| #[trigger] r.state_of(ch, d) == zero_state(),
            forall|ch: Seq<char>, s: u64| !#[trigger] r.has_packet(ch, s),
    {
        Registry { infos: Vec::new(), states: Vec::new(), packets: Vec::new() }
    }

    /// Registers a channel as it opens; a channel already registered keeps its data.
    pub fn open_channel(&mut self, info: ChannelInfo)
        requires
            old(self).wf(),
        ensures
            final(self).wf(),
            final(self).has_channel(info.id@),
            forall|id: Seq<char>| id != info.id@ ==> #[trigger] final(self).has_channel(id) == old(self).has_channel(id),
            final(self).states@ == old(self).states@,
            final(self).packets@ == old(self).packets@,
    {
        if self.find_channel(&info.id).is_none() {
            self.infos.push(info);
            assert(self.infos@[self.infos@.len() - 1] == info);
            assert forall|id: Seq<char>| id != info.id@ implies #[trigger] self.has_channel(id) == old(self).has_channel(id) by {
                if self.has_channel(id) {
                    let i = choose|i: int| 0 <= i < self.infos@.len() && (#[trigger] self.infos@[i]).id@ == id;
                    assert(old(self).infos@[i].id@ == id);
                }
                if old(self).has_channel(id) {
                    let i = choose|i: int| 0 <= i < old(self).infos@.len() && (#[trigger] old(self).infos@[i]).id@ == id;
                    assert(self.infos@[i].id@ == id);
                }
            }
        }
        proof {
            lemma_same_states(*old(self), *self);
        }
    }

    fn find_channel(&self, id: &String) -> (r: Option<usize>)
        ensures
            r matches Some(i) ==> i < self.infos@.len() && self.infos@[i as int].id@ == id@,
            r is None ==> !self.has_channel(id@),
    {
        let mut i: usize = 0;
        while i < self.infos.len()
            invariant
                i <= self.infos@.len(),
                forall|j: int| 0 <= j < i ==> (#[trigger] self.infos@[j]).id@ != id@,
            decreases self.infos@.len() - i,
        {
            if self.infos[i].id == *id {
                return Some(i);
            }
            i = i + 1;
        }
        None
    }

    pub fn has_channel_info(&self, id: &String) -> (r: bool)
        ensures
            r == self.has_channel(id@),
    {
        self.find_channel(id).is_some()
    }

    /// The data of a registered channel.
    pub fn get_info(&self, id: &String) -> (r: Option<&ChannelInfo>)
        ensures
            r is Some <==> self.has_channel(id@),
            r matches Some(info) ==> info.id@ == id@ && exists|i: int|
                0 <= i < self.infos@.len() && self.infos@[i] == *info,
    {
        match self.find_channel(id) {
            Some(i) => Some(&self.infos[i]),
            None => None,
        }
    }

    fn find_state(&self, ch: &String, d: &String) -> (r: Option<usize>)
        ensures
            r matches Some(i) ==> i < self.states@.len() && self.state_key(i as int) == (ch@, d@),
            r is None ==> !self.has_state(ch@, d@),
    {
        let mut i: usize = 0;
        while i < self.states.len()
            invariant
                i <= self.states@.len(),
                forall|j: int| 0 <= j < i ==> #[trigger] self.state_key(j) != (ch@, d@),
            decreases self.states@.len() - i,
        {
            if self.states[i].channel == *ch && self.states[i].denom == *d {
                return Some(i);
            }
            i = i + 1;
        }
        None
    }

    /// The counters of a channel and denomination: zero where none were recorded.
    pub fn get_state(&self, ch: &String, d: &String) -> (r: ChannelState)
        requires
            self.wf_core(),
        ensures
            r == self.state_of(ch@, d@),
    {
        match self.find_state(ch, d) {
            Some(i) => {
                proof {
                    lemma_state_at(*self, i as int);
                }
                self.states[i].state
            },
            None => ChannelState { outstanding: 0, total_sent: 0 },
        }
    }

    fn set_state(&mut self, ch: &String, d: &String, state: ChannelState)
        requires
            old(self).wf_core(),
            state.outstanding <= state.total_sent,
        ensures
            final(self).wf_core(),
            final(self).state_of(ch@, d@) == state,
            Registry::same_states_except(*old(self), *final(self), ch@, d@),
            final(self).packets@ == old(self).packets@,
    {
        match self.find_state(ch, d) {
            Some(i) => {
                self.states[i].state = state;
                proof {
                    assert forall|j: int| 0 <= j < self.states@.len() implies #[trigger] self.state_key(j)
                        == old(self).state_key(j) by {}
                    assert forall|j: int| 0 <= j < self.states@.len() implies (#[trigger] self.states@[j]).state.outstanding
                        <= self.states@[j].state.total_sent by {
                        if j != i {
                            assert(self.states@[j] == old(self).states@[j]);
                        }
                    }
                    assert forall|a: int, b: int| 0 <= a < b < self.states@.len() implies
                        self.state_key(a) != self.state_key(b) by {
                        assert(old(self).state_key(a) != old(self).state_key(b));
                    }
                    lemma_state_update(*old(self), *self, i as int);
                }
            },
            None => {
                self.states.push(StateEntry { channel: ch.clone(), denom: d.clone(), state });
                proof {
                    let n = old(self).states@.len() as int;
                    assert(self.state_key(n) == (ch@, d@));
                    assert forall|i: int, j: int| 0 <= i < j < self.states@.len() implies
                        self.state_key(i) != self.state_key(j) by {
                        if j == n {
                            assert(old(self).state_key(i) != (ch@, d@));
                        } else {
                            assert(old(self).state_key(i) != old(self).state_key(j));
                        }
                    }
                    assert forall|j: int| 0 <= j < self.states@.len() implies (#[trigger] self.states@[j]).state.outstanding
                        <= self.states@[j].state.total_sent by {
                        if j < n {
                            assert(self.states@[j] == old(self).states@[j]);
                        }
                    }
                    lemma_state_push(*old(self), *self, ch@, d@);
                }
            },
        }
    }

    /// Counts a send: both counters grow by the amount. Fails, changing nothing, where the
    /// total would leave the range of 128 bits.
    fn record_send(&mut self, ch: &String, d: &String, amount: u128) -> (r: Result<(), ContractError>)
        requires
            old(self).wf_core(),
        ensures
            final(self).wf_core(),
            final(self).packets@ == old(self).packets@,
            old(self).state_of(ch@, d@).total_sent + amount > u128::MAX ==> r == Err::<(), ContractError>(
                ContractError::CounterOverflow,
            ) && *final(self) == *old(self),
            old(self).state_of(ch@, d@).total_sent + amount <= u128::MAX ==> r is Ok
                && final(self).state_of(ch@, d@).outstanding == old(self).state_of(ch@, d@).outstanding + amount
                && final(self).state_of(ch@, d@).total_sent == old(self).state_of(ch@, d@).total_sent + amount
                && Registry::same_states_except(*old(self), *final(self), ch@, d@),
    {
        let s = self.get_state(ch, d);
        proof {
            if self.has_state(ch@, d@) {
                let j = choose|j: int| 0 <= j < self.states@.len() && #[trigger] self.state_key(j) == (ch@, d@);
                lemma_state_at(*self, j);
            }
        }
        match s.total_sent.checked_add(amount) {
            Some(total_sent) => {
                let outstanding = s.outstanding + amount;
                self.set_state(ch, d, ChannelState { outstanding, total_sent });
                Ok(())
            },
            None => Err(ContractError::CounterOverflow),
        }
    }

    /// Settles an amount that arrived: it is no longer outstanding, and stays counted as
    /// sent. Fails, changing nothing, where less than the amount is outstanding.
    fn record_ack_success(&mut self, ch: &String, d: &String, amount: u128) -> (r: Result<(), ContractError>)
        requires
            old(self).wf_core(),
        ensures
            final(self).wf_core(),
            final(self).packets@ == old(self).packets@,
            old(self).state_of(ch@, d@).outstanding < amount ==> r == Err::<(), ContractError>(
                ContractError::CounterOverflow,
            ) && *final(self) == *old(self),
            old(self).state_of(ch@, d@).outstanding >= amount ==> r is Ok
                && final(self).state_of(ch@, d@).outstanding == old(self).state_of(ch@, d@).outstanding - amount
                && final(self).state_of(ch@, d@).total_sent == old(self).state_of(ch@, d@).total_sent
                && Registry::same_states_except(*old(self), *final(self), ch@, d@),
    {
        let s = self.get_state(ch, d);
        if s.outstanding < amount {
            return Err(ContractError::CounterOverflow);
        }
        self.set_state(ch, d, ChannelState { outstanding: s.outstanding - amount, total_sent: s.total_sent });
        Ok(())
    }

    /// Reverses a send that failed or timed out: the amount is neither outstanding nor
    /// counted as sent. Fails, changing nothing, where less than the amount is outstanding.
    fn record_ack_failure_or_timeout(&mut self, ch: &String, d: &String, amount: u128) -> (r: Result<(), ContractError>)
        requires
            old(self).wf_core(),
        ensures
            final(self).wf_core(),
            final(self).packets@ == old(self).packets@,
            old(self).state_of(ch@, d@).outstanding < amount ==> r == Err::<(), ContractError>(
                ContractError::CounterOverflow,
            ) && *final(self) == *old(self),
            old(self).state_of(ch@, d@).outstanding >= amount ==> r is Ok
                && final(self).state_of(ch@, d@).outstanding == old(self).state_of(ch@, d@).outstanding - amount
                && final(self).state_of(ch@, d@).total_sent == old(self).state_of(ch@, d@).total_sent - amount
                && Registry::same_states_except(*old(self), *final(self), ch@, d@),
    {
        let s = self.get_state(ch, d);
        proof {
            if self.has_state(ch@, d@) {
                let j = choose|j: int| 0 <= j < self.states@.len() && #[trigger] self.state_key(j) == (ch@, d@);
                lemma_state_at(*self, j);
            }
        }
        if s.outstanding < amount {
            return Err(ContractError::CounterOverflow);
        }
        self.set_state(
            ch,
            d,
            ChannelState { outstanding: s.outstanding - amount, total_sent: s.total_sent - amount },
        );
        Ok(())
    }
}

/// Registries with the same counters agree on every key's counters.
proof fn lemma_same_states(a: Registry, b: Registry)
    requires
        a.states_unique(),
        a.states@ == b.states@,
    ensures
        forall|c: Seq<char>, e: Seq<char>| #[trigger] b.state_of(c, e) == a.state_of(c, e),
{
    assert forall|c: Seq<char>, e: Seq<char>| #[trigger] b.state_of(c, e) == a.state_of(c, e) by {
        if a.has_state(c, e) {
            let j = choose|j: int| 0 <= j < a.states@.len() && #[trigger] a.state_key(j) == (c, e);
            assert(b.state_key(j) == (c, e));
            lemma_state_at(a, j);
            lemma_state_at(b, j);
        }
        if b.has_state(c, e) {
            let j = choose|j: int| 0 <= j < b.states@.len() && #[trigger] b.state_key(j) == (c, e);
            assert(a.state_key(j) == (c, e));
        }
    }
}

/// Registries with the same packet records agree on every packet.
proof fn lemma_same_packets(a: Registry, b: Registry)
    requires
        a.packets_unique(),
        a.packets@ == b.packets@,
    ensures
        forall|c: Seq<char>, s: u64|
            #[trigger] b.has_packet(c, s) == a.has_packet(c, s) && (a.has_packet(c, s) ==> b.packet_of(c, s)
                == a.packet_of(c, s)),
{
    assert forall|c: Seq<char>, s: u64|
        #[trigger] b.has_packet(c, s) == a.has_packet(c, s) && (a.has_packet(c, s) ==> b.packet_of(c, s)
            == a.packet_of(c, s)) by {
        if a.has_packet(c, s) {
            let j = choose|j: int| 0 <= j < a.packets@.len() && #[trigger] a.packet_key(j) == (c, s);
            assert(b.packet_key(j) == (c, s));
            lemma_packet_at(a, j);
            lemma_packet_at(b, j);
        }
        if b.has_packet(c, s) {
            let j = choose|j: int| 0 <= j < b.packets@.len() && #[trigger] b.packet_key(j) == (c, s);
            assert(a.packet_key(j) == (c, s));
        }
    }
}

impl Registry {
    fn find_packet(&self, ch: &String, sequence: u64) -> (r: Option<usize>)
        ensures
            r matches Some(i) ==> i < self.packets@.len() && self.packet_key(i as int) == (ch@, sequence),
            r is None ==> !self.has_packet(ch@, sequence),
    {
        let mut i: usize = 0;
        while i < self.packets.len()
            invariant
                i <= self.packets@.len(),
                forall|j: int| 0 <= j < i ==> #[trigger] self.packet_key(j) != (ch@, sequence),
            decreases self.packets@.len() - i,
        {
            if self.packets[i].sequence == sequence && self.packets[i].channel == *ch {
                return Some(i);
            }
            i = i + 1;
        }
        None
    }

    /// Whether a packet was sent with this sequence over this channel.
    pub fn is_tracked(&self, ch: &String, sequence: u64) -> (r: bool)
        ensures
            r == self.has_packet(ch@, sequence),
    {
        self.find_packet(ch, sequence).is_some()
    }

    /// Counts a send of `amount` in `d` over `ch`, and tracks the packet under its sequence
    /// until it is settled. Fails, changing nothing, where that sequence is already tracked
    /// on the channel or the total would leave the range of 128 bits.
    pub fn record_sent_packet(&mut self, ch: &String, sequence: u64, d: &String, amount: u128) -> (r:
        Result<(), ContractError>)
        requires
            old(self).wf(),
        ensures
            final(self).wf(),
            r is Err ==> *final(self) == *old(self),
            old(self).has_packet(ch@, sequence) ==> r == Err::<(), ContractError>(
                ContractError::UnknownOrDuplicatePacket,
            ),
            !old(self).has_packet(ch@, sequence) && old(self).state_of(ch@, d@).total_sent + amount
                > u128::MAX ==> r == Err::<(), ContractError>(ContractError::CounterOverflow),
            !old(self).has_packet(ch@, sequence) && old(self).state_of(ch@, d@).total_sent + amount
                <= u128::MAX ==> r is Ok && Registry::sent(*old(self), *final(self), ch@, d@, amount, sequence),
    {
        if self.find_packet(ch, sequence).is_some() {
            return Err(ContractError::UnknownOrDuplicatePacket);
        }
        let ghost before = *self;
        self.record_send(ch, d, amount)?;
        let ghost mid = *self;
        self.packets.push(
            PacketRecord {
                channel: ch.clone(),
                sequence,
                denom: d.clone(),
                amount,
                status: PacketStatus::Sent,
            },
        );
        proof {
            let n = mid.packets@.len() as int;
            assert(self.packet_key(n) == (ch@, sequence));
            assert(!mid.has_packet(ch@, sequence)) by {
                if mid.has_packet(ch@, sequence) {
                    let j = choose|j: int| 0 <= j < mid.packets@.len() && #[trigger] mid.packet_key(j) == (ch@, sequence);
                    assert(before.packet_key(j) == (ch@, sequence));
                }
            }
            assert forall|i: int, j: int| 0 <= i < j < self.packets@.len() implies
                self.packet_key(i) != self.packet_key(j) by {
                if j == n {
                    assert(mid.packet_key(i) != (ch@, sequence));
                } else {
                    assert(mid.packet_key(i) != mid.packet_key(j));
                }
            }
            assert(self.states@ == mid.states@);
            assert(self.wf_core());
            lemma_packet_push(mid, *self, ch@, sequence);
            lemma_same_states(mid, *self);
            lemma_same_packets(before, mid);
            assert(self.state_of(ch@, d@) == mid.state_of(ch@, d@));
            assert(Registry::same_states_except(before, *self, ch@, d@));
            assert(self.packet_of(ch@, sequence) == self.packets@[n]);
            assert(Registry::same_packets_except(before, *self, ch@, sequence));
            let rec = self.packets@[n];
            assert(self.packets@ =~= mid.packets@.push(rec));
            assert forall|c: Seq<char>, e: Seq<char>|
                #[trigger] self.state_of(c, e).outstanding >= sent_sum(self.packets@, c, e) by {
                lemma_sent_sum_push(mid.packets@, rec, c, e);
                assert(before.state_of(c, e).outstanding >= sent_sum(before.packets@, c, e));
                if (c, e) != (ch@, d@) {
                    assert(self.state_of(c, e) == before.state_of(c, e));
                }
            }
        }
        Ok(())
    }

    /// Settles a sent packet with the answer of the other chain: a success leaves the amount
    /// counted as sent, a failure or timeout takes it back; either way it is no longer
    /// outstanding, and the packet reaches its terminal status. A packet that is unknown or
    /// already settled is refused, changing nothing.
    pub fn reconcile(&mut self, ch: &String, sequence: u64, outcome: Outcome) -> (r: Result<(), ContractError>)
        requires
            old(self).wf(),
        ensures
            final(self).wf(),
            Registry::reconcile_spec(*old(self), *final(self), ch@, sequence, outcome, r),
    {
        let i = match self.find_packet(ch, sequence) {
            Some(i) => i,
            None => {
                return Err(ContractError::UnknownOrDuplicatePacket);
            },
        };
        proof {
            lemma_packet_at(*self, i as int);
        }
        if self.packets[i].status != PacketStatus::Sent {
            return Err(ContractError::UnknownOrDuplicatePacket);
        }
        let ghost before = *self;
        let d = self.packets[i].denom.clone();
        let amount = self.packets[i].amount;
        proof {
            lemma_sent_sum_le(self.packets@, i as int);
            assert(self.state_of(ch@, d@).outstanding >= sent_sum(self.packets@, ch@, d@));
        }
        match outcome {
            Outcome::Success => self.record_ack_success(ch, &d, amount)?,
            _ => self.record_ack_failure_or_timeout(ch, &d, amount)?,
        }
        let ghost mid = *self;
        let status = match outcome {
            Outcome::Success => PacketStatus::Acked,
            Outcome::Failure => PacketStatus::Failed,
            Outcome::Timeout => PacketStatus::TimedOut,
        };
        self.packets[i].status = status;
        proof {
            assert forall|j: int| 0 <= j < self.packets@.len() implies #[trigger] self.packet_key(j)
                == mid.packet_key(j) by {}
            assert forall|a: int, b: int| 0 <= a < b < self.packets@.len() implies
                self.packet_key(a) != self.packet_key(b) by {
                assert(mid.packet_key(a) != mid.packet_key(b));
            }
            assert(self.states@ == mid.states@);
            assert(self.wf_core());
            assert(mid.packet_key(i as int) == (ch@, sequence));
            lemma_packet_update(mid, *self, i as int);
            lemma_same_states(mid, *self);
            lemma_same_packets(before, mid);
            assert(before.packet_of(ch@, sequence) == before.packets@[i as int]);
            assert(Registry::same_states_except(before, *self, ch@, d@));
            assert(self.packet_of(ch@, sequence) == self.packets@[i as int]);
            assert forall|c: Seq<char>, s: u64|
                (c, s) != (ch@, sequence) implies (#[trigger] self.has_packet(c, s) == before.has_packet(c, s)
                    && (before.has_packet(c, s) ==> self.packet_of(c, s) == before.packet_of(c, s))) by {
                assert(mid.has_packet(c, s) == before.has_packet(c, s));
                assert(self.has_packet(c, s) == mid.has_packet(c, s));
            }
            let q = self.packets@[i as int];
            assert(self.packets@ =~= before.packets@.update(i as int, q));
            assert forall|c: Seq<char>, e: Seq<char>|
                #[trigger] self.state_of(c, e).outstanding >= sent_sum(self.packets@, c, e) by {
                lemma_sent_sum_settle(before.packets@, i as int, q, c, e);
                assert(before.state_of(c, e).outstanding >= sent_sum(before.packets@, c, e));
                if (c, e) != (ch@, d@) {
                    assert(self.state_of(c, e) == before.state_of(c, e));
                }
            }
        }
        Ok(())
    }
}

impl Registry {
    fn states_ok(&self) -> (r: bool)
        ensures
            r == (self.states_unique() && forall|i: int|
                0 <= i < self.states@.len() ==> (#[trigger] self.states@[i]).state.outstanding
                    <= self.states@[i].state.total_sent),
    {
        let n = self.states.len();
        let mut i: usize = 0;
        while i < n
            invariant
                n == self.states@.len(),
                i <= n,
                forall|a: int, b: int|
                    #![trigger self.states@[a], self.states@[b]]
                    0 <= a < i && a < b < n ==> self.state_key(a) != self.state_key(b),
                forall|a: int| 0 <= a < i ==> (#[trigger] self.states@[a]).state.outstanding
                    <= self.states@[a].state.total_sent,
            decreases n - i,
        {
            if self.states[i].state.outstanding > self.states[i].state.total_sent {
                return false;
            }
            let mut j: usize = i + 1;
            while j < n
                invariant
                    n == self.states@.len(),
                    i < n,
                    i + 1 <= j <= n,
                    forall|b: int| i < b < j ==> #[trigger] self.state_key(b) != self.state_key(i as int),
                decreases n - j,
            {
                if self.states[j].channel == self.states[i].channel && self.states[j].denom
                    == self.states[i].denom {
                    assert(self.state_key(j as int) == self.state_key(i as int));
                    return false;
                }
                j = j + 1;
            }
            i = i + 1;
        }
        true
    }

    fn packets_ok(&self) -> (r: bool)
        ensures
            r == self.packets_unique(),
    {
        let n = self.packets.len();
        let mut i: usize = 0;
        while i < n
            invariant
                n == self.packets@.len(),
                i <= n,
                forall|a: int, b: int|
                    #![trigger self.packets@[a], self.packets@[b]]
                    0 <= a < i && a < b < n ==> self.packet_key(a) != self.packet_key(b),
            decreases n - i,
        {
            let mut j: usize = i + 1;
            while j < n
                invariant
                    n == self.packets@.len(),
                    i < n,
                    i + 1 <= j <= n,
                    forall|b: int| i < b < j ==> #[trigger] self.packet_key(b) != self.packet_key(i as int),
                decreases n - j,
            {
                if self.packets[j].sequence == self.packets[i].sequence && self.packets[j].channel
                    == self.packets[i].channel {
                    assert(self.packet_key(j as int) == self.packet_key(i as int));
                    return false;
                }
                j = j + 1;
            }
            i = i + 1;
        }
        true
    }

    fn key_sum(&self, c: &String, e: &String) -> (r: Option<u128>)
        ensures
            r matches Some(v) ==> v == sent_sum(self.packets@, c@, e@),
            r is None ==> sent_sum(self.packets@, c@, e@) > u128::MAX,
    {
        let mut acc: u128 = 0;
        let mut j: usize = 0;
        while j < self.packets.len()
            invariant
                j <= self.packets@.len(),
                acc == sent_sum(self.packets@.subrange(0, j as int), c@, e@),
            decreases self.packets@.len() - j,
        {
            let ghost pre = self.packets@.subrange(0, j as int);
            assert(self.packets@.subrange(0, j + 1) =~= pre.push(self.packets@[j as int]));
            proof {
                lemma_sent_sum_push(pre, self.packets@[j as int], c@, e@);
            }
            let p = &self.packets[j];
            if p.status == PacketStatus::Sent && p.channel == *c && p.denom == *e {
                match acc.checked_add(p.amount) {
                    Some(v) => {
                        acc = v;
                    },
                    None => {
                        proof {
                            lemma_sent_sum_prefix(self.packets@, j + 1, c@, e@);
                        }
                        return None;
                    },
                }
            }
            j = j + 1;
        }
        assert(self.packets@.subrange(0, self.packets@.len() as int) =~= self.packets@);
        Some(acc)
    }

    fn covered_ok(&self) -> (r: bool)
        requires
            self.states_unique(),
        ensures
            r == self.covered(),
    {
        let mut i: usize = 0;
        while i < self.states.len()
            invariant
                self.states_unique(),
                i <= self.states@.len(),
                forall|a: int|
                    0 <= a < i ==> (#[trigger] self.states@[a]).state.outstanding >= sent_sum(
                        self.packets@,
                        self.states@[a].channel@,
                        self.states@[a].denom@,
                    ),
            decreases self.states@.len() - i,
        {
            let e = &self.states[i];
            proof {
                lemma_state_at(*self, i as int);
            }
            match self.key_sum(&e.channel, &e.denom) {
                Some(v) => {
                    if v > e.state.outstanding {
                        return false;
                    }
                },
                None => {
                    return false;
                },
            }
            i = i + 1;
        }
        let mut j: usize = 0;
        while j < self.packets.len()
            invariant
                self.states_unique(),
                j <= self.packets@.len(),
                forall|a: int|
                    0 <= a < self.states@.len() ==> (#[trigger] self.states@[a]).state.outstanding
                        >= sent_sum(self.packets@, self.states@[a].channel@, self.states@[a].denom@),
                forall|b: int|
                    0 <= b < j && (#[trigger] self.packets@[b]).status == PacketStatus::Sent
                        && self.packets@[b].amount > 0 ==> self.has_state(
                        self.packets@[b].channel@,
                        self.packets@[b].denom@,
                    ),
            decreases self.packets@.len() - j,
        {
            let p = &self.packets[j];
            if p.status == PacketStatus::Sent && p.amount > 0 && self.find_state(&p.channel, &p.denom).is_none() {
                proof {
                    lemma_sent_sum_le(self.packets@, j as int);
                    assert(self.state_of(p.channel@, p.denom@) == zero_state());
                    assert(self.state_of(p.channel@, p.denom@).outstanding < sent_sum(
                        self.packets@,
                        p.channel@,
                        p.denom@,
                    ));
                }
                return false;
            }
            j = j + 1;
        }
        proof {
            assert forall|c: Seq<char>, e: Seq<char>|
                #[trigger] self.state_of(c, e).outstanding >= sent_sum(self.packets@, c, e) by {
                if self.has_state(c, e) {
                    let a = choose|a: int| 0 <= a < self.states@.len() && #[trigger] self.state_key(a) == (c, e);
                    lemma_state_at(*self, a);
                    assert(self.states@[a].state.outstanding >= sent_sum(
                        self.packets@,
                        self.states@[a].channel@,
                        self.states@[a].denom@,
                    ));
                } else {
                    assert forall|b: int|
                        0 <= b < self.packets@.len() && (#[trigger] self.packets@[b]).status
                            == PacketStatus::Sent && self.packets@[b].channel@ == c
                            && self.packets@[b].denom@ == e implies self.packets@[b].amount == 0 by {}
                    lemma_sent_sum_zero(self.packets@, c, e);
                }
            }
        }
        true
    }

    /// Whether keys are unique and no counter of unsettled amounts exceeds the total sent;
    /// a registry read back from storage is checked with it before use.
    pub fn is_well_formed(&self) -> (r: bool)
        ensures
            r == self.wf(),
    {
        self.states_ok() && self.packets_ok() && self.covered_ok()
    }
}

/// The amounts recorded for channel `ch`, one per denomination in the order they were
/// first recorded: what is outstanding, or, with `total`, what was sent in all.
pub open spec fn balances_spec(entries: Seq<StateEntry>, ch: Seq<char>, total: bool) -> Seq<AmountModel>
    decreases entries.len(),
{
    if entries.len() == 0 {
        Seq::empty()
    } else {
        let rest = balances_spec(entries.drop_last(), ch, total);
        let e = entries.last();
        if e.channel@ == ch {
            rest.push(
                from_parts_spec(
                    e.denom@,
                    if total {
                        e.state.total_sent
                    } else {
                        e.state.outstanding
                    },
                ),
            )
        } else {
            rest
        }
    }
}

/// The views of a sequence of amounts.
pub open spec fn amount_views(a: Seq<Amount>) -> Seq<AmountModel> {
    a.map_values(|x: Amount| x@)
}

/// A channel's data with its balances per denomination.
#[derive(Debug)]
pub struct ChannelResponse {
    pub info: ChannelInfo,
    /// What is outstanding, per denomination.
    pub balances: Vec<Amount>,
    /// What was sent in all, per denomination.
    pub total_sent: Vec<Amount>,
}

impl Registry {
    /// The data and balances of a registered channel; `None` for any other.
    pub fn query_channel(&self, id: &String) -> (r: Option<ChannelResponse>)
        ensures
            r is Some <==> self.has_channel(id@),
            r matches Some(res) ==> res.info.id@ == id@ && (exists|i: int|
                0 <= i < self.infos@.len() && self.infos@[i] == res.info)
                && amount_views(res.balances@) == balances_spec(self.states@, id@, false)
                && amount_views(res.total_sent@) == balances_spec(self.states@, id@, true),
    {
        let found = match self.get_info(id) {
            Some(info) => info,
            None => {
                return None;
            },
        };
        let info = ChannelInfo {
            id: found.id.clone(),
            counterparty_port: found.counterparty_port.clone(),
            counterparty_channel: found.counterparty_channel.clone(),
            connection_id: found.connection_id.clone(),
            version: found.version.clone(),
        };
        assert(exists|i: int| 0 <= i < self.infos@.len() && self.infos@[i] == info);
        let mut balances: Vec<Amount> = Vec::new();
        let mut total_sent: Vec<Amount> = Vec::new();
        let mut i: usize = 0;
        while i < self.states.len()
            invariant
                i <= self.states@.len(),
                amount_views(balances@) == balances_spec(self.states@.subrange(0, i as int), id@, false),
                amount_views(total_sent@) == balances_spec(self.states@.subrange(0, i as int), id@, true),
            decreases self.states@.len() - i,
        {
            let ghost prefix = self.states@.subrange(0, i as int);
            let ghost next = self.states@.subrange(0, i + 1);
            assert(next.drop_last() =~= prefix);
            assert(next.last() == self.states@[i as int]);
            if self.states[i].channel == *id {
                let e = &self.states[i];
                let ghost old_b = balances@;
                let ghost old_t = total_sent@;
                balances.push(Amount::from_parts(e.denom.clone(), e.state.outstanding));
                total_sent.push(Amount::from_parts(e.denom.clone(), e.state.total_sent));
                assert(amount_views(balances@) =~= amount_views(old_b).push(balances@.last()@));
                assert(amount_views(total_sent@) =~= amount_views(old_t).push(total_sent@.last()@));
            }
            i = i + 1;
        }
        assert(self.states@.subrange(0, self.states@.len() as int) =~= self.states@);
        Some(ChannelResponse { info, balances, total_sent })
    }
}

} // verus!
