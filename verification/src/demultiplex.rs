//! The dispatcher: hands each packet of a buffer to the filter for its PID,
//! and makes the changes to the filter table that the filters ask for.

use crate::context::{DemuxContext, FilterRequest, PacketFilter, RequestView, StreamConstructor};
use crate::filters::{applied_all, slots_hold, slots_with, FilterChange, Filters};
use crate::packet::{pid_of, Packet, PACKET_SIZE, SYNC_BYTE};
use vstd::prelude::*;

verus! {

/// Whether `buf` holds all of the `k`-th run of 188 bytes.
pub open spec fn holds_slot(buf: Seq<u8>, k: int) -> bool {
    0 <= k && (k + 1) * PACKET_SIZE <= buf.len()
}

/// Whether the `k`-th run of 188 bytes of `buf` is there, and starts with
/// the sync byte.
pub open spec fn is_packet_at(buf: Seq<u8>, k: int) -> bool {
    holds_slot(buf, k) && buf[k * PACKET_SIZE] == SYNC_BYTE
}

/// The `k`-th run of 188 bytes of `buf`.
pub open spec fn packet_at(buf: Seq<u8>, k: int) -> Seq<u8> {
    buf.subrange(k * PACKET_SIZE, k * PACKET_SIZE + PACKET_SIZE)
}

/// How many packets `buf` holds from the `k`-th run of 188 bytes on, up to
/// the first run that is not there, or does not start with the sync byte.
pub open spec fn packet_count_from(buf: Seq<u8>, k: int) -> nat
    decreases buf.len() - k * PACKET_SIZE,
{
    if is_packet_at(buf, k) {
        1 + packet_count_from(buf, k + 1)
    } else {
        0
    }
}

/// How many packets of `buf` are dispatched: those before the first run of
/// 188 bytes that is not there, or does not start with the sync byte.
pub open spec fn packet_count(buf: Seq<u8>) -> nat {
    packet_count_from(buf, 0)
}

/// Whether the dispatch of `buf` ends at a run of 188 bytes that is there and
/// does not start with the sync byte.
pub open spec fn desynced(buf: Seq<u8>) -> bool {
    holds_slot(buf, packet_count(buf) as int)
}

/// What the dispatcher works on: the slots of the filter table, the changes
/// that wait in the context, and the constructor in the context.
#[verifier::ext_equal]
pub struct DemuxState<Ctx: DemuxContext> {
    pub slots: Seq<Option<Ctx::F>>,
    pub edits: Seq<FilterChange<Ctx::F>>,
    pub constructor: Ctx::Ctor,
}

impl<Ctx: DemuxContext> DemuxState<Ctx> where Ctx::F: PacketFilter<Ctx = Ctx> {
    /// The state after the waiting changes were made to the filter table.
    pub open spec fn settled(self) -> Self {
        DemuxState {
            slots: applied_all(self.edits, self.slots),
            edits: Seq::empty(),
            constructor: self.constructor,
        }
    }

    /// That `post` may be the state after a filter for `pid` was installed
    /// where there was none: the constructor was asked for one by PID.
    pub open spec fn installed(self, pid: u16, post: Self) -> bool {
        if slots_hold(self.slots, pid) {
            post == self
        } else {
            &&& post.edits == self.edits
            &&& post.slots.len() > pid
            &&& post.slots[pid as int] is Some
            &&& post.slots == slots_with(self.slots, pid, post.slots[pid as int]->0)
            &&& <Ctx::Ctor as StreamConstructor>::constructs(
                self.constructor,
                RequestView::ByPid(pid),
                post.constructor,
                post.slots[pid as int]->0,
            )
        }
    }

    /// That `post` may be the state after the filter for the PID of the
    /// packet `pk` consumed `pk`.  The filter is handed the waiting changes
    /// and the constructor; no other slot of the table changes.
    pub open spec fn consumed(self, pk: Seq<u8>, post: Self) -> bool {
        let pid = pid_of(pk);
        &&& slots_hold(self.slots, pid)
        &&& slots_hold(post.slots, pid)
        &&& post.slots == self.slots.update(pid as int, post.slots[pid as int])
        &&& <Ctx::F as PacketFilter>::consumes(
            self.slots[pid as int]->0,
            self.edits,
            self.constructor,
            pk,
            post.slots[pid as int]->0,
            post.edits,
            post.constructor,
        )
    }

    /// That `post` may be the state after the packet `pk` was dispatched: a
    /// filter was installed for its PID where there was none, and the filter
    /// for its PID consumed it.
    pub open spec fn dispatched(self, pk: Seq<u8>, post: Self) -> bool {
        exists|mid: Self|
            {
                &&& #[trigger] self.installed(pid_of(pk), mid)
                &&& mid.consumed(pk, post)
            }
    }

    /// That `post` may be the state when the first packet of `buf` is about
    /// to be dispatched.  Changes that wait at the start are made first,
    /// after a filter was installed for the PID of the first packet where
    /// there was none.
    pub open spec fn primed(self, buf: Seq<u8>, post: Self) -> bool {
        if self.edits.len() == 0 {
            post == self
        } else {
            exists|mid: Self|
                {
                    &&& #[trigger] self.installed(pid_of(packet_at(buf, 0)), mid)
                    &&& post == mid.settled()
                }
        }
    }

    /// That `post` may be the state when packet `k` of `buf` is about to be
    /// dispatched: the packets before it were dispatched in order, and the
    /// changes that each of their filters asked for were made before the
    /// next packet was dispatched.
    pub open spec fn reached(self, buf: Seq<u8>, k: nat, post: Self) -> bool
        decreases k,
    {
        if k == 0 {
            is_packet_at(buf, 0) && self.primed(buf, post)
        } else {
            exists|before: Self, raw: Self|
                {
                    &&& self.reached(buf, (k - 1) as nat, before)
                    &&& #[trigger] before.dispatched(packet_at(buf, k - 1), raw)
                    &&& post == raw.settled()
                }
        }
    }

    /// That `post` may be the state right after packet `k - 1` of `buf` was
    /// consumed, before the changes that its filter asked for are made.
    pub open spec fn consumed_through(self, buf: Seq<u8>, k: nat, post: Self) -> bool {
        &&& k >= 1
        &&& exists|before: Self|
            {
                &&& #[trigger] self.reached(buf, (k - 1) as nat, before)
                &&& before.dispatched(packet_at(buf, k - 1), post)
            }
    }

    /// That `post` may be the state after `buf` was pushed.
    ///
    /// The packets of `buf` are dispatched in order, up to the first run of
    /// 188 bytes that is not whole or does not start with the sync byte; what
    /// follows is ignored.  The changes that a filter asks for are made
    /// before the next packet is dispatched, and after the last packet,
    /// unless the dispatch ended at a run that does not start with the sync
    /// byte: then the changes that the last filter asked for still wait.
    pub open spec fn pushed(self, buf: Seq<u8>, post: Self) -> bool {
        if packet_count(buf) == 0 {
            post == self
        } else {
            exists|raw: Self|
                {
                    &&& #[trigger] self.consumed_through(buf, packet_count(buf), raw)
                    &&& post == if desynced(buf) {
                        raw
                    } else {
                        raw.settled()
                    }
                }
        }
    }
}

/// The state that a filter table and a context make up.
pub open spec fn state_of<Ctx: DemuxContext>(
    slots: Seq<Option<Ctx::F>>,
    ctx: Ctx,
) -> DemuxState<Ctx> {
    DemuxState { slots, edits: ctx.changeset()@, constructor: ctx.constructor() }
}

/// How many whole runs of 188 bytes `buf` holds.
pub open spec fn run_count(buf: Seq<u8>) -> int {
    buf.len() as int / PACKET_SIZE as int
}

/// The whole runs of 188 bytes of `buf`, without the bytes after the last.
pub open spec fn whole_runs(buf: Seq<u8>) -> Seq<u8> {
    buf.take(run_count(buf) * PACKET_SIZE)
}

/// The runs of 188 bytes before the first that is no packet are packets.
pub proof fn lemma_packets_before_count(buf: Seq<u8>, from: int, j: int)
    requires
        0 <= from <= j < from + packet_count_from(buf, from),
    ensures
        is_packet_at(buf, j),
        packet_count_from(buf, from) == (j - from) + packet_count_from(buf, j),
    decreases j - from,
{
    if from < j {
        lemma_packets_before_count(buf, from + 1, j);
    }
}

/// No more packets are dispatched than the buffer holds runs of 188 bytes.
/// Where each of these runs starts with the sync byte, all of them are
/// dispatched, and the bytes after the last run are ignored.
pub proof fn lemma_packet_count_bound(buf: Seq<u8>, from: int)
    requires
        0 <= from,
    ensures
        from + packet_count_from(buf, from) <= run_count(buf) || packet_count_from(
            buf,
            from,
        ) == 0,
        (forall|j: int| from <= j < run_count(buf) ==> #[trigger] is_packet_at(buf, j)) && from
            <= run_count(buf) ==> from + packet_count_from(buf, from) == run_count(buf),
    decreases buf.len() - from * PACKET_SIZE,
{
    if is_packet_at(buf, from) {
        lemma_packet_count_bound(buf, from + 1);
    }
}

/// A buffer of `n` runs of 188 bytes that each start with the sync byte,
/// and of fewer than 188 bytes after them, has `n` packets dispatched, and
/// the dispatch does not end at a run without sync byte.
pub proof fn lemma_whole_packets_dispatched(buf: Seq<u8>)
    requires
        forall|j: int| 0 <= j < run_count(buf) ==> #[trigger] is_packet_at(buf, j),
    ensures
        packet_count(buf) == run_count(buf),
        !desynced(buf),
{
    lemma_packet_count_bound(buf, 0);
}

/// The dispatch of a buffer that does not begin with the sync byte changes
/// nothing: no filter is handed a packet.
pub proof fn lemma_no_sync_no_dispatch<Ctx: DemuxContext>(
    start: DemuxState<Ctx>,
    buf: Seq<u8>,
    post: DemuxState<Ctx>,
) where Ctx::F: PacketFilter<Ctx = Ctx>
    requires
        buf.len() == 0 || buf[0] != SYNC_BYTE,
    ensures
        packet_count(buf) == 0,
        start.pushed(buf, post) <==> post == start,
{
}

/// The bytes after the last whole run of 188 bytes do not count.
pub proof fn lemma_trailing_count(buf: Seq<u8>, from: int)
    requires
        0 <= from,
    ensures
        packet_count_from(buf, from) == packet_count_from(whole_runs(buf), from),
    decreases buf.len() - from * PACKET_SIZE,
{
    if is_packet_at(buf, from) {
        lemma_trailing_count(buf, from + 1);
    }
}

/// What is reached in a buffer is reached in every buffer that has the same
/// packets up to there.
pub proof fn lemma_reached_same_packets<Ctx: DemuxContext>(
    start: DemuxState<Ctx>,
    buf: Seq<u8>,
    other: Seq<u8>,
    k: nat,
    post: DemuxState<Ctx>,
) where Ctx::F: PacketFilter<Ctx = Ctx>
    requires
        forall|j: int| 0 <= j <= k ==> packet_at(buf, j) == packet_at(other, j),
        is_packet_at(buf, 0) == is_packet_at(other, 0),
        start.reached(buf, k, post),
    ensures
        start.reached(other, k, post),
    decreases k,
{
    if k > 0 {
        let (before, raw) = choose|before: DemuxState<Ctx>, raw: DemuxState<Ctx>|
            {
                &&& start.reached(buf, (k - 1) as nat, before)
                &&& #[trigger] before.dispatched(packet_at(buf, k - 1), raw)
                &&& post == raw.settled()
            };
        lemma_reached_same_packets(start, buf, other, (k - 1) as nat, before);
        assert(before.dispatched(packet_at(other, k - 1), raw));
    }
}

/// A buffer of `n` whole runs of 188 bytes and some bytes more is pushed as
/// the buffer of these `n` runs alone is: the bytes after them are ignored.
pub proof fn lemma_trailing_bytes_ignored<Ctx: DemuxContext>(
    start: DemuxState<Ctx>,
    buf: Seq<u8>,
    post: DemuxState<Ctx>,
) where Ctx::F: PacketFilter<Ctx = Ctx>
    ensures
        packet_count(buf) == packet_count(whole_runs(buf)),
        start.pushed(buf, post) <==> start.pushed(whole_runs(buf), post),
{
    let whole = whole_runs(buf);
    let n = packet_count(buf);
    lemma_trailing_count(buf, 0);
    lemma_packet_count_bound(buf, 0);
    assert(desynced(buf) == desynced(whole));
    if n > 0 {
        lemma_packets_before_count(buf, 0, 0);
        assert forall|j: int| 0 <= j <= n - 1 implies packet_at(buf, j) == packet_at(whole, j) by {
            assert(packet_at(buf, j) =~= packet_at(whole, j));
        }
        assert(is_packet_at(whole, 0));
        if start.pushed(buf, post) {
            let raw = choose|raw: DemuxState<Ctx>|
                {
                    &&& #[trigger] start.consumed_through(buf, n, raw)
                    &&& post == if desynced(buf) {
                        raw
                    } else {
                        raw.settled()
                    }
                };
            let before = choose|before: DemuxState<Ctx>|
                {
                    &&& #[trigger] start.reached(buf, (n - 1) as nat, before)
                    &&& before.dispatched(packet_at(buf, n - 1), raw)
                };
            lemma_reached_same_packets(start, buf, whole, (n - 1) as nat, before);
            assert(start.consumed_through(whole, n, raw));
        }
        if start.pushed(whole, post) {
            let raw = choose|raw: DemuxState<Ctx>|
                {
                    &&& #[trigger] start.consumed_through(whole, n, raw)
                    &&& post == if desynced(whole) {
                        raw
                    } else {
                        raw.settled()
                    }
                };
            let before = choose|before: DemuxState<Ctx>|
                {
                    &&& #[trigger] start.reached(whole, (n - 1) as nat, before)
                    &&& before.dispatched(packet_at(whole, n - 1), raw)
                };
            lemma_reached_same_packets(start, whole, buf, (n - 1) as nat, before);
            assert(start.consumed_through(buf, n, raw));
        }
    }
}

/// The changes that a filter asks for are made before the next packet is
/// dispatched: no change waits when a packet is about to be dispatched.
pub proof fn lemma_reached_without_waiting_changes<Ctx: DemuxContext>(
    start: DemuxState<Ctx>,
    buf: Seq<u8>,
    k: nat,
    post: DemuxState<Ctx>,
) where Ctx::F: PacketFilter<Ctx = Ctx>
    requires
        start.reached(buf, k, post),
    ensures
        post.edits.len() == 0,
{
}

/// Packets are consumed in the order of the buffer, each by the filter for
/// its own PID: where packet `k` is reached, every packet `j` before it was
/// consumed by the filter that stood at the PID of packet `j` once the
/// packets before `j`, and no others, had been dispatched.
pub proof fn lemma_consumed_in_order<Ctx: DemuxContext>(
    start: DemuxState<Ctx>,
    buf: Seq<u8>,
    k: nat,
    post: DemuxState<Ctx>,
    j: nat,
) where Ctx::F: PacketFilter<Ctx = Ctx>
    requires
        start.reached(buf, k, post),
        j < k,
    ensures
        exists|before: DemuxState<Ctx>, mid: DemuxState<Ctx>, after: DemuxState<Ctx>|
            {
                &&& start.reached(buf, j, before)
                &&& #[trigger] before.installed(pid_of(packet_at(buf, j as int)), mid)
                &&& #[trigger] mid.consumed(packet_at(buf, j as int), after)
                &&& start.reached(buf, j + 1, after.settled())
            },
    decreases k,
{
    let (before, raw) = choose|before: DemuxState<Ctx>, raw: DemuxState<Ctx>|
        {
            &&& start.reached(buf, (k - 1) as nat, before)
            &&& #[trigger] before.dispatched(packet_at(buf, k - 1), raw)
            &&& post == raw.settled()
        };
    if j == k - 1 {
        let mid = choose|mid: DemuxState<Ctx>|
            {
                &&& #[trigger] before.installed(pid_of(packet_at(buf, k - 1)), mid)
                &&& mid.consumed(packet_at(buf, k - 1), raw)
            };
        assert(mid.consumed(packet_at(buf, j as int), raw));
        assert(start.reached(buf, j + 1, raw.settled()));
    } else {
        lemma_consumed_in_order(start, buf, (k - 1) as nat, before, j);
    }
}

/// Packets are handed to the filters in the order of the buffer: where a
/// buffer was pushed, each packet of it that was dispatched was consumed by
/// the filter for its own PID, in the state that the dispatch of the packets
/// before it, in their order, had led to.
pub proof fn lemma_pushed_in_order<Ctx: DemuxContext>(
    start: DemuxState<Ctx>,
    buf: Seq<u8>,
    post: DemuxState<Ctx>,
    j: nat,
) where Ctx::F: PacketFilter<Ctx = Ctx>
    requires
        start.pushed(buf, post),
        j < packet_count(buf),
    ensures
        exists|before: DemuxState<Ctx>, mid: DemuxState<Ctx>, after: DemuxState<Ctx>|
            {
                &&& start.reached(buf, j, before)
                &&& #[trigger] before.installed(pid_of(packet_at(buf, j as int)), mid)
                &&& #[trigger] mid.consumed(packet_at(buf, j as int), after)
            },
{
    let n = packet_count(buf);
    let raw = choose|raw: DemuxState<Ctx>|
        {
            &&& #[trigger] start.consumed_through(buf, n, raw)
            &&& post == if desynced(buf) {
                raw
            } else {
                raw.settled()
            }
        };
    let before = choose|before: DemuxState<Ctx>|
        {
            &&& #[trigger] start.reached(buf, (n - 1) as nat, before)
            &&& before.dispatched(packet_at(buf, n - 1), raw)
        };
    if j == n - 1 {
        let mid = choose|mid: DemuxState<Ctx>|
            {
                &&& #[trigger] before.installed(pid_of(packet_at(buf, n - 1)), mid)
                &&& mid.consumed(packet_at(buf, n - 1), raw)
            };
        assert(mid.consumed(packet_at(buf, j as int), raw));
    } else {
        lemma_consumed_in_order(start, buf, (n - 1) as nat, before, j);
    }
}

/// Dispatches the packets of a transport stream to the filters for their
/// PIDs.
pub struct Demultiplex<Ctx: DemuxContext> {
    processor_by_pid: Filters<Ctx::F>,
}

impl<Ctx: DemuxContext> View for Demultiplex<Ctx> {
    type V = Seq<Option<Ctx::F>>;

    /// The slots of the filter table, by PID.
    closed spec fn view(&self) -> Seq<Option<Ctx::F>> {
        self.processor_by_pid@
    }
}

impl<Ctx: DemuxContext> Demultiplex<Ctx> where Ctx::F: PacketFilter<Ctx = Ctx> {
    /// A dispatcher whose table holds one filter: that for PID 0, which the
    /// constructor in `ctx` is asked for by PID.
    pub fn new(ctx: &mut Ctx) -> (demux: Demultiplex<Ctx>)
        ensures
            demux@.len() == 1,
            demux@[0] is Some,
            <Ctx::Ctor as StreamConstructor>::constructs(
                old(ctx).constructor(),
                RequestView::ByPid(0),
                final(ctx).constructor(),
                demux@[0]->0,
            ),
            final(ctx).changeset() == old(ctx).changeset(),
    {
        let mut result = Demultiplex { processor_by_pid: Filters::new() };
        let filter = ctx.filter_constructor().construct(FilterRequest::ByPid(0));
        result.processor_by_pid.insert(0, filter);
        result
    }

    /// Dispatches the packets of `buf`, as [`DemuxState::pushed`] says.
    ///
    /// While one packet after another has the same PID and no change waits,
    /// the filter for that PID is looked up once and handed the packets in
    /// turn.
    pub fn push(&mut self, ctx: &mut Ctx, buf: &[u8])
        ensures
            state_of(old(self)@, *old(ctx)).pushed(buf@, state_of(final(self)@, *final(ctx))),
    {
        let ghost start = state_of(self@, *ctx);
        let ghost mut k: nat = 0;
        let len = buf.len();
        let mut i: usize = 0;
        loop
            invariant
                i == k * PACKET_SIZE,
                i <= len == buf@.len(),
                packet_count(buf@) == k + packet_count_from(buf@, k as int),
                start == state_of(old(self)@, *old(ctx)),
                between_packets(start, buf@, k, state_of(self@, *ctx)),
            ensures
                start.pushed(buf@, state_of(self@, *ctx)),
            decreases buf@.len() - i, ctx.changeset()@.len(),
        {
            if len - i < PACKET_SIZE {
                proof {
                    lemma_pushed_at_end(start, buf@, k, state_of(self@, *ctx));
                }
                break ;
            }
            if !Packet::is_sync_byte(buf[i]) {
                proof {
                    lemma_pushed_at_end(start, buf@, k, state_of(self@, *ctx));
                }
                return ;
            }
            let mut pk = Packet::new(&buf[i..i + PACKET_SIZE]);
            let this_pid = pk.pid();
            let ghost first = k;
            let ghost head = state_of(self@, *ctx);
            if !self.processor_by_pid.contains(this_pid) {
                let filter = ctx.filter_constructor().construct(FilterRequest::ByPid(this_pid));
                self.processor_by_pid.insert(this_pid, filter);
            }
            let ghost slots = self.processor_by_pid@;
            if let Some(this_proc) = self.processor_by_pid.get(this_pid) {
                proof {
                    assert(slots.update(this_pid as int, Some(*this_proc)) =~= slots);
                }
                loop
                    invariant_except_break
                        is_packet_at(buf@, k as int),
                        pk@ == packet_at(buf@, k as int),
                        in_batch(
                            start,
                            buf@,
                            k,
                            head,
                            this_pid,
                            batch_state(slots, this_pid, *this_proc, *ctx),
                        ),
                    invariant
                        i == k * PACKET_SIZE,
                        i <= len == buf@.len(),
                        packet_count(buf@) == k + packet_count_from(buf@, k as int),
                        start == state_of(old(self)@, *old(ctx)),
                        this_pid < slots.len(),
                        first <= k,
                        k == first ==> ctx.changeset()@ == head.edits,
                        after_borrow(self.processor_by_pid)@ == slots.update(
                            this_pid as int,
                            Some(*final(this_proc)),
                        ),
                    ensures
                        k > first || head.edits.len() > 0,
                        after_batch(
                            start,
                            buf@,
                            k,
                            batch_state(slots, this_pid, *this_proc, *ctx),
                        ),
                    decreases buf@.len() - i,
                {
                    if !ctx.filter_changeset().is_empty() {
                        proof {
                            lemma_batch_ends(
                                start,
                                buf@,
                                k,
                                head,
                                this_pid,
                                batch_state(slots, this_pid, *this_proc, *ctx),
                            );
                        }
                        break ;
                    }
                    let ghost cur = batch_state(slots, this_pid, *this_proc, *ctx);
                    this_proc.consume(ctx, pk);
                    let ghost raw = batch_state(slots, this_pid, *this_proc, *ctx);
                    proof {
                        assert(raw.slots =~= cur.slots.update(
                            this_pid as int,
                            raw.slots[this_pid as int],
                        ));
                        lemma_batch_step(start, buf@, k, head, this_pid, cur, raw);
                        k = k + 1;
                    }
                    i += PACKET_SIZE;
                    if len - i < PACKET_SIZE {
                        break ;
                    }
                    if !Packet::is_sync_byte(buf[i]) {
                        proof {
                            lemma_pushed_at_desync(start, buf@, k, raw);
                        }
                        return ;
                    }
                    pk = Packet::new(&buf[i..i + PACKET_SIZE]);
                    if pk.pid() != this_pid {
                        break ;
                    }
                }
            }
            let ghost raw = state_of(self@, *ctx);
            if !ctx.filter_changeset().is_empty() {
                ctx.filter_changeset().apply(&mut self.processor_by_pid);
            }
            proof {
                assert(state_of(self@, *ctx) =~= raw.settled());
                lemma_batch_settles(start, buf@, k, raw);
            }
        }
    }

    /// Whether a filter is installed for `pid`.
    pub fn contains(&self, pid: u16) -> (r: bool)
        ensures
            r == slots_hold(self@, pid),
    {
        self.processor_by_pid.contains(pid)
    }

    /// The PIDs that have a filter, in ascending order.
    pub fn pids(&self) -> (r: Vec<u16>)
        ensures
            forall|pid: u16| r@.contains(pid) <==> slots_hold(self@, pid),
            forall|i: int, j: int| 0 <= i < j < r@.len() ==> r@[i] < r@[j],
    {
        self.processor_by_pid.pids()
    }
}

/// What holds between two iterations of the dispatch: nothing has happened
/// yet, or packet `k` is about to be dispatched and no change waits.
spec fn between_packets<Ctx: DemuxContext>(
    start: DemuxState<Ctx>,
    buf: Seq<u8>,
    k: nat,
    cur: DemuxState<Ctx>,
) -> bool where Ctx::F: PacketFilter<Ctx = Ctx> {
    ||| k == 0 && cur == start
    ||| {
        &&& cur.edits.len() == 0
        &&& start.reached(buf, k, cur)
        &&& holds_slot(buf, k as int) ==> is_packet_at(buf, k as int)
    }
}

/// What holds while one filter is handed packet after packet: packet `k - 1`
/// was just consumed, or packet `k` is about to be, with its filter in place.
spec fn in_batch<Ctx: DemuxContext>(
    start: DemuxState<Ctx>,
    buf: Seq<u8>,
    k: nat,
    base: DemuxState<Ctx>,
    pid: u16,
    cur: DemuxState<Ctx>,
) -> bool where Ctx::F: PacketFilter<Ctx = Ctx> {
    &&& pid == pid_of(packet_at(buf, k as int))
    &&& slots_hold(cur.slots, pid)
    &&& {
        ||| start.consumed_through(buf, k, cur)
        ||| {
            &&& base.installed(pid, cur)
            &&& {
                ||| k == 0 && base == start
                ||| base.edits.len() == 0 && start.reached(buf, k, base)
            }
        }
    }
}

/// What holds when one filter has been handed its packets: the last of them
/// was just consumed, or changes waited at the start and none was consumed.
spec fn after_batch<Ctx: DemuxContext>(
    start: DemuxState<Ctx>,
    buf: Seq<u8>,
    k: nat,
    cur: DemuxState<Ctx>,
) -> bool where Ctx::F: PacketFilter<Ctx = Ctx> {
    &&& holds_slot(buf, k as int) ==> is_packet_at(buf, k as int)
    &&& {
        ||| start.consumed_through(buf, k, cur)
        ||| {
            &&& k == 0
            &&& is_packet_at(buf, 0)
            &&& start.edits.len() > 0
            &&& start.installed(pid_of(packet_at(buf, 0)), cur)
        }
    }
}

/// The state while the filter for `pid` is borrowed from the table: the
/// table as it was when the filter was borrowed, with the filter as it is.
spec fn batch_state<Ctx: DemuxContext>(
    slots: Seq<Option<Ctx::F>>,
    pid: u16,
    filter: Ctx::F,
    ctx: Ctx,
) -> DemuxState<Ctx> {
    state_of(slots.update(pid as int, Some(filter)), ctx)
}

/// Once a packet was consumed and the waiting changes are made, the next
/// packet is reached.
proof fn lemma_reached_after<Ctx: DemuxContext>(
    start: DemuxState<Ctx>,
    buf: Seq<u8>,
    k: nat,
    raw: DemuxState<Ctx>,
) where Ctx::F: PacketFilter<Ctx = Ctx>
    requires
        start.consumed_through(buf, k, raw),
    ensures
        start.reached(buf, k, raw.settled()),
{
    let before = choose|before: DemuxState<Ctx>|
        {
            &&& #[trigger] start.reached(buf, (k - 1) as nat, before)
            &&& before.dispatched(packet_at(buf, k - 1), raw)
        };
    assert(before.dispatched(packet_at(buf, k - 1), raw));
}

/// Where the dispatch stops between two packets, the buffer was pushed.
proof fn lemma_pushed_at_end<Ctx: DemuxContext>(
    start: DemuxState<Ctx>,
    buf: Seq<u8>,
    k: nat,
    cur: DemuxState<Ctx>,
) where Ctx::F: PacketFilter<Ctx = Ctx>
    requires
        packet_count(buf) == k + packet_count_from(buf, k as int),
        between_packets(start, buf, k, cur),
        !is_packet_at(buf, k as int),
    ensures
        start.pushed(buf, cur),
{
    if !(k == 0 && cur == start) {
        let (before, raw) = choose|before: DemuxState<Ctx>, raw: DemuxState<Ctx>|
            {
                &&& start.reached(buf, (k - 1) as nat, before)
                &&& #[trigger] before.dispatched(packet_at(buf, k - 1), raw)
                &&& cur == raw.settled()
            };
        assert(start.consumed_through(buf, packet_count(buf), raw));
    }
}

/// Where the dispatch stops right after a packet was consumed, at a run of
/// bytes that does not start with the sync byte, the buffer was pushed.
proof fn lemma_pushed_at_desync<Ctx: DemuxContext>(
    start: DemuxState<Ctx>,
    buf: Seq<u8>,
    k: nat,
    raw: DemuxState<Ctx>,
) where Ctx::F: PacketFilter<Ctx = Ctx>
    requires
        packet_count(buf) == k + packet_count_from(buf, k as int),
        start.consumed_through(buf, k, raw),
        holds_slot(buf, k as int),
        !is_packet_at(buf, k as int),
    ensures
        start.pushed(buf, raw),
{
    assert(start.consumed_through(buf, packet_count(buf), raw));
}

/// One more packet consumed by the filter that is being handed packets.
proof fn lemma_batch_step<Ctx: DemuxContext>(
    start: DemuxState<Ctx>,
    buf: Seq<u8>,
    k: nat,
    base: DemuxState<Ctx>,
    pid: u16,
    cur: DemuxState<Ctx>,
    raw: DemuxState<Ctx>,
) where Ctx::F: PacketFilter<Ctx = Ctx>
    requires
        is_packet_at(buf, k as int),
        in_batch(start, buf, k, base, pid, cur),
        cur.edits.len() == 0,
        cur.consumed(packet_at(buf, k as int), raw),
    ensures
        start.consumed_through(buf, k + 1, raw),
{
    let pk = packet_at(buf, k as int);
    if start.consumed_through(buf, k, cur) {
        // no change waits: the state is settled as it is, and the filter in place
        assert(cur.settled() =~= cur);
        lemma_reached_after(start, buf, k, cur);
        assert(cur.installed(pid, cur));
        assert(cur.dispatched(pk, raw));
        assert(start.reached(buf, ((k + 1) - 1) as nat, cur));
    } else {
        assert(base.dispatched(pk, raw));
        assert(start.reached(buf, ((k + 1) - 1) as nat, base));
    }
}

/// When no more packets are handed to the filter because changes wait.
proof fn lemma_batch_ends<Ctx: DemuxContext>(
    start: DemuxState<Ctx>,
    buf: Seq<u8>,
    k: nat,
    base: DemuxState<Ctx>,
    pid: u16,
    cur: DemuxState<Ctx>,
) where Ctx::F: PacketFilter<Ctx = Ctx>
    requires
        is_packet_at(buf, k as int),
        in_batch(start, buf, k, base, pid, cur),
        cur.edits.len() > 0,
    ensures
        after_batch(start, buf, k, cur),
{
}

/// Once the waiting changes are made, the next packet can be dispatched.
proof fn lemma_batch_settles<Ctx: DemuxContext>(
    start: DemuxState<Ctx>,
    buf: Seq<u8>,
    k: nat,
    raw: DemuxState<Ctx>,
) where Ctx::F: PacketFilter<Ctx = Ctx>
    requires
        after_batch(start, buf, k, raw),
    ensures
        between_packets(start, buf, k, raw.settled()),
{
    if start.consumed_through(buf, k, raw) {
        lemma_reached_after(start, buf, k, raw);
    } else {
        assert(start.primed(buf, raw.settled()));
        assert(start.reached(buf, k, raw.settled()));
    }
}

} // verus!
