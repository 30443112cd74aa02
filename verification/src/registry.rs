//! What the table processors share: the record of the PIDs that a processor
//! has registered filters for, and the changes that a new table asks for.

use crate::context::{DemuxContext, FilterRequest, RequestView, StreamConstructor};
use crate::filters::FilterChange;
use fixedbitset::FixedBitSet;
use std::collections::HashSet;
use vstd::prelude::*;

verus! {

/// The number of PIDs: a PID has 13 bits.
pub const PID_COUNT: usize = 0x2000;

/// The PIDs that a bit set records.
pub open spec fn recorded(bits: FixedBitSet) -> Set<u16> {
    Set::new(|pid: u16| pid < PID_COUNT && crate::bitset::bitset_ones(bits).contains(pid as int))
}

/// The PIDs below `bound` that are in `registered` and not in `seen`, in
/// ascending order.
pub open spec fn stale_pids(registered: Set<u16>, seen: Set<u16>, bound: int) -> Seq<u16>
    decreases bound,
{
    if bound <= 0 {
        Seq::empty()
    } else {
        let before = stale_pids(registered, seen, bound - 1);
        let pid = (bound - 1) as u16;
        if registered.contains(pid) && !seen.contains(pid) {
            before.push(pid)
        } else {
            before
        }
    }
}

/// One removal for each of `pids`, in their order.
pub open spec fn removals<F>(pids: Seq<u16>) -> Seq<FilterChange<F>> {
    Seq::new(pids.len(), |i: int| FilterChange::Remove(pids[i]))
}

/// One insertion for each of `pids`, in their order, of the filter at the
/// same place in `filters`.
pub open spec fn insertions<F>(pids: Seq<u16>, filters: Seq<F>) -> Seq<FilterChange<F>> {
    Seq::new(pids.len(), |i: int| FilterChange::Insert(pids[i], filters[i]))
}

/// That a constructor in state `pre` may answer `requests`, one after the
/// other, with `filters`, and be in state `post` afterwards.
pub open spec fn constructs_all<C: StreamConstructor>(
    pre: C,
    requests: Seq<RequestView>,
    post: C,
    filters: Seq<C::F>,
) -> bool
    decreases requests.len(),
{
    if requests.len() == 0 {
        post == pre && filters.len() == 0
    } else {
        &&& filters.len() == requests.len()
        &&& exists|mid: C|
            {
                &&& constructs_all::<C>(pre, requests.drop_last(), mid, filters.drop_last())
                &&& #[trigger] C::constructs(mid, requests.last(), post, filters.last())
            }
    }
}

/// How far the handling of a table has come: what the context held and
/// which PIDs were registered when it began, and the PIDs that the entries
/// handled so far name, the requests that they gave rise to and the filters
/// that the constructor made for them, all in the order of the entries.
pub struct Announcement<Ctx: DemuxContext> {
    pub edits: Seq<FilterChange<Ctx::F>>,
    pub constructor: Ctx::Ctor,
    pub registered: Set<u16>,
    pub pids: Seq<u16>,
    pub requests: Seq<RequestView>,
    pub filters: Seq<Ctx::F>,
}

impl<Ctx: DemuxContext> Announcement<Ctx> {
    /// The handling of a table that has not handled an entry yet.
    pub open spec fn begin(ctx: Ctx, registered: FixedBitSet) -> Self {
        Announcement {
            edits: ctx.changeset()@,
            constructor: ctx.constructor(),
            registered: recorded(registered),
            pids: Seq::empty(),
            requests: Seq::empty(),
            filters: Seq::empty(),
        }
    }

    /// The handling after one more entry, which names `pid` and gave rise to
    /// `request`, was answered with `filter`.
    pub open spec fn with(self, pid: u16, request: RequestView, filter: Ctx::F) -> Self {
        Announcement {
            pids: self.pids.push(pid),
            requests: self.requests.push(request),
            filters: self.filters.push(filter),
            ..self
        }
    }

    /// Whether the context, the PIDs seen and the record of registered PIDs
    /// are as the entries handled so far leave them: the constructor
    /// answered the request of each entry, the insertion of each of its
    /// answers waits after the changes that waited at the beginning, and the
    /// PIDs that the entries name are seen, and registered beside those that
    /// were.
    pub open spec fn holds(self, ctx: Ctx, seen: Set<u16>, registered: FixedBitSet) -> bool {
        &&& self.requests.len() == self.pids.len()
        &&& self.filters.len() == self.pids.len()
        &&& constructs_all::<Ctx::Ctor>(
            self.constructor,
            self.requests,
            ctx.constructor(),
            self.filters,
        )
        &&& ctx.changeset()@ == self.edits + insertions(self.pids, self.filters)
        &&& seen == self.pids.to_set()
        &&& crate::bitset::bitset_len(registered) >= PID_COUNT
        &&& recorded(registered) == self.registered.union(self.pids.to_set())
    }

    /// The changes that wait once the table is handled: those that waited at
    /// the beginning, the insertion of the filter of each entry at the
    /// entry's PID, and the removal, in ascending order, of each PID that
    /// was registered and that no entry names.
    pub open spec fn changes(self) -> Seq<FilterChange<Ctx::F>> {
        self.edits + insertions(self.pids, self.filters) + removals(
            stale_pids(self.registered, self.pids.to_set(), PID_COUNT as int),
        )
    }
}

/// Handles one entry of a table, which names `pid`: asks the constructor in
/// `ctx` for a filter, asks for its insertion at `pid`, and notes that `pid`
/// was seen and is registered.
pub(crate) fn announce<Ctx: DemuxContext>(
    registered: &mut FixedBitSet,
    seen: &mut HashSet<u16>,
    ctx: &mut Ctx,
    pid: u16,
    request: FilterRequest,
    Ghost(sofar): Ghost<Announcement<Ctx>>,
) -> (made: Ghost<Ctx::F>)
    requires
        pid < PID_COUNT,
        sofar.holds(*old(ctx), old(seen)@, *old(registered)),
    ensures
        sofar.with(pid, request@, made@).holds(*final(ctx), final(seen)@, *final(registered)),
{
    broadcast use vstd::std_specs::hash::group_hash_axioms;

    let ghost before = ctx.constructor();
    let ghost record = *registered;
    let filter = ctx.filter_constructor().construct(request);
    let ghost made = filter;
    ctx.filter_changeset().insert(pid, filter);
    seen.insert(pid);
    registered.insert(pid as usize);
    proof {
        let next = sofar.with(pid, request@, made);
        assert(next.requests.drop_last() =~= sofar.requests);
        assert(next.filters.drop_last() =~= sofar.filters);
        assert(<Ctx::Ctor as StreamConstructor>::constructs(
            before,
            next.requests.last(),
            ctx.constructor(),
            next.filters.last(),
        ));
        assert(ctx.changeset()@ =~= next.edits + insertions(next.pids, next.filters));
        sofar.pids.lemma_push_to_set_commute(pid);
        assert forall|p: u16|
            recorded(*registered).contains(p) == next.registered.union(
                next.pids.to_set(),
            ).contains(p) by {
            assert(recorded(record).contains(p) == sofar.registered.union(
                sofar.pids.to_set(),
            ).contains(p));
        }
        assert(recorded(*registered) =~= next.registered.union(next.pids.to_set()));
    }
    Ghost(made)
}

/// Asks for the removal of the filter of every PID that `registered` records
/// and that `seen` does not hold, in ascending order, and strikes these PIDs
/// from the record.
pub(crate) fn retire_stale<Ctx: DemuxContext>(
    registered: &mut FixedBitSet,
    seen: &HashSet<u16>,
    ctx: &mut Ctx,
)
    requires
        crate::bitset::bitset_len(*old(registered)) >= PID_COUNT,
    ensures
        final(ctx).changeset()@ == old(ctx).changeset()@ + removals(
            stale_pids(recorded(*old(registered)), seen@, PID_COUNT as int),
        ),
        final(ctx).constructor() == old(ctx).constructor(),
        recorded(*final(registered)) == recorded(*old(registered)).intersect(seen@),
        crate::bitset::bitset_len(*final(registered)) == crate::bitset::bitset_len(
            *old(registered),
        ),
{
    broadcast use vstd::std_specs::hash::group_hash_axioms;

    let mut pid: usize = 0;
    while pid < PID_COUNT
        invariant
            pid <= PID_COUNT,
            crate::bitset::bitset_len(*registered) == crate::bitset::bitset_len(*old(registered)),
            crate::bitset::bitset_len(*registered) >= PID_COUNT,
            ctx.constructor() == old(ctx).constructor(),
            ctx.changeset()@ == old(ctx).changeset()@ + removals(
                stale_pids(recorded(*old(registered)), seen@, pid as int),
            ),
            forall|p: int|
                0 <= p < PID_COUNT ==> (#[trigger] crate::bitset::bitset_ones(*registered).contains(
                    p,
                ) <==> crate::bitset::bitset_ones(*old(registered)).contains(p) && (p >= pid
                    || seen@.contains(p as u16))),
        decreases PID_COUNT - pid,
    {
        let key: u16 = pid as u16;
        if registered.contains(pid) && !seen.contains(&key) {
            ctx.filter_changeset().remove(key);
            registered.set(pid, false);
        }
        pid += 1;
    }
}

/// Once every entry of a table is handled and the stale PIDs are retired,
/// the changes that the table asks for wait, and the PIDs that its entries
/// name are the registered PIDs.
pub proof fn lemma_announcement_done<Ctx: DemuxContext>(
    all: Announcement<Ctx>,
    ctx: Ctx,
    seen: Set<u16>,
    registered: FixedBitSet,
    post_ctx: Ctx,
    post_registered: FixedBitSet,
)
    requires
        all.holds(ctx, seen, registered),
        post_ctx.changeset()@ == ctx.changeset()@ + removals::<Ctx::F>(
            stale_pids(recorded(registered), seen, PID_COUNT as int),
        ),
        recorded(post_registered) == recorded(registered).intersect(seen),
    ensures
        post_ctx.changeset()@ == all.changes(),
        recorded(post_registered) == all.pids.to_set(),
{
    lemma_stale_pids_agree(recorded(registered), all.registered, seen, PID_COUNT as int);
}

/// Before the first entry of a table is handled, everything is as the
/// beginning says.
pub proof fn lemma_announcement_begins<Ctx: DemuxContext>(
    ctx: Ctx,
    seen: Set<u16>,
    registered: FixedBitSet,
)
    requires
        seen == Set::<u16>::empty(),
        crate::bitset::bitset_len(registered) >= PID_COUNT,
    ensures
        Announcement::<Ctx>::begin(ctx, registered).holds(ctx, seen, registered),
{
    let begin = Announcement::<Ctx>::begin(ctx, registered);
    assert(begin.pids.to_set() =~= Set::<u16>::empty());
    assert(begin.registered.union(Set::<u16>::empty()) =~= begin.registered);
    assert(ctx.changeset()@ =~= begin.edits + insertions(begin.pids, begin.filters));
}

/// Which PIDs are stale depends only on which registered PIDs were not seen.
pub proof fn lemma_stale_pids_agree(
    registered: Set<u16>,
    other: Set<u16>,
    seen: Set<u16>,
    bound: int,
)
    requires
        forall|pid: u16|
            (registered.contains(pid) && !seen.contains(pid)) == (other.contains(pid)
                && !seen.contains(pid)),
    ensures
        stale_pids(registered, seen, bound) == stale_pids(other, seen, bound),
    decreases bound,
{
    if bound > 0 {
        lemma_stale_pids_agree(registered, other, seen, bound - 1);
    }
}

/// As many filters are made as requests are answered.
pub proof fn lemma_constructs_all_len<C: StreamConstructor>(
    pre: C,
    requests: Seq<RequestView>,
    post: C,
    filters: Seq<C::F>,
)
    requires
        constructs_all::<C>(pre, requests, post, filters),
    ensures
        filters.len() == requests.len(),
{
}

/// The registered PIDs below `bound` that were not seen.
pub open spec fn stale_below(registered: Set<u16>, seen: Set<u16>, bound: int) -> Set<u16> {
    Set::new(|pid: u16| pid < bound && registered.contains(pid) && !seen.contains(pid))
}

/// The stale PIDs come in ascending order, each once: they are as many as
/// the registered PIDs below `bound` that were not seen, and they are these.
pub proof fn lemma_stale_pids_below(registered: Set<u16>, seen: Set<u16>, bound: int)
    requires
        0 <= bound <= 0x1_0000,
    ensures
        stale_below(registered, seen, bound).finite(),
        stale_pids(registered, seen, bound).len() == stale_below(registered, seen, bound).len(),
        stale_pids(registered, seen, bound).to_set() == stale_below(registered, seen, bound),
        forall|i: int, j: int|
            0 <= i < j < stale_pids(registered, seen, bound).len() ==> stale_pids(
                registered,
                seen,
                bound,
            )[i] < stale_pids(registered, seen, bound)[j],
    decreases bound,
{
    let stale = stale_pids(registered, seen, bound);
    let below = stale_below(registered, seen, bound);
    if bound == 0 {
        assert(below =~= Set::<u16>::empty());
    } else {
        lemma_stale_pids_below(registered, seen, bound - 1);
        let before = stale_pids(registered, seen, bound - 1);
        let fewer = stale_below(registered, seen, bound - 1);
        let pid = (bound - 1) as u16;
        assert forall|i: int| 0 <= i < before.len() implies before[i] < pid by {
            assert(before.to_set().contains(before[i]));
        }
        if registered.contains(pid) && !seen.contains(pid) {
            before.lemma_push_to_set_commute(pid);
            assert(stale.to_set() =~= below);
        } else {
            assert(below =~= fewer);
        }
    }
}

/// The changes that a table asks for, after those that waited: one insertion
/// for each PID that it names, then one removal for each PID that was
/// registered and that it does not name.
pub proof fn lemma_table_changes<F>(pids: Seq<u16>, filters: Seq<F>, registered: Set<u16>)
    requires
        filters.len() == pids.len(),
        forall|pid: u16| registered.contains(pid) ==> pid < PID_COUNT,
    ensures
        registered.difference(pids.to_set()).finite(),
        ({
            let changes = insertions(pids, filters) + removals::<F>(
                stale_pids(registered, pids.to_set(), PID_COUNT as int),
            );
            &&& changes.len() == pids.len() + registered.difference(pids.to_set()).len()
            &&& forall|i: int|
                0 <= i < pids.len() ==> #[trigger] changes[i] == FilterChange::Insert(
                    pids[i],
                    filters[i],
                )
            &&& forall|i: int|
                pids.len() <= i < changes.len() ==> (#[trigger] changes[i]) is Remove
                    && registered.contains(changes[i].spec_pid()) && !pids.contains(
                    changes[i].spec_pid(),
                )
        }),
        pids.no_duplicates() ==> pids.to_set().len() == pids.len(),
{
    let seen = pids.to_set();
    let stale = stale_pids(registered, seen, PID_COUNT as int);
    lemma_stale_pids_below(registered, seen, PID_COUNT as int);
    assert(stale_below(registered, seen, PID_COUNT as int) =~= registered.difference(seen));
    let changes = insertions(pids, filters) + removals::<F>(stale);
    assert forall|i: int| pids.len() <= i < changes.len() implies (#[trigger] changes[i]) is Remove
        && registered.contains(changes[i].spec_pid()) && !pids.contains(changes[i].spec_pid()) by {
        let pid = stale[i - pids.len()];
        assert(stale.to_set().contains(pid));
    }
    if pids.no_duplicates() {
        pids.unique_seq_to_set();
    }
}

} // verus!
