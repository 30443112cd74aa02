//! The table of filters by PID, and the queue of changes to it that filters
//! ask for while they run.

use vstd::prelude::*;

verus! {

/// The slots of a filter table after `filter` was put at `pid`: the table
/// grows with empty slots up to `pid` where it was shorter.
pub open spec fn slots_with<F>(slots: Seq<Option<F>>, pid: u16, filter: F) -> Seq<Option<F>> {
    if pid < slots.len() {
        slots.update(pid as int, Some(filter))
    } else {
        slots + Seq::new((pid - slots.len()) as nat, |i: int| None::<F>) + seq![Some(filter)]
    }
}

/// The slots of a filter table after the filter at `pid` was taken away.
pub open spec fn slots_without<F>(slots: Seq<Option<F>>, pid: u16) -> Seq<Option<F>> {
    if pid < slots.len() {
        slots.update(pid as int, None)
    } else {
        slots
    }
}

/// Whether a filter stands at `pid`.
pub open spec fn slots_hold<F>(slots: Seq<Option<F>>, pid: u16) -> bool {
    pid < slots.len() && slots[pid as int] is Some
}

/// A filter table never shrinks, and grows no further than to hold the
/// highest PID that a filter is installed for: while every such PID has 13
/// bits, the table has at most 8192 slots.
pub proof fn lemma_slots_bounded<F>(slots: Seq<Option<F>>, pid: u16, filter: F, bound: int)
    requires
        slots.len() <= bound,
        pid < bound,
    ensures
        slots.len() <= slots_with(slots, pid, filter).len() <= bound,
        slots_with(slots, pid, filter).len() == if pid < slots.len() {
            slots.len()
        } else {
            (pid + 1) as nat
        },
        slots_without(slots, pid).len() == slots.len(),
{
}

/// After a filter was installed for a PID, that PID and those that had a
/// filter have one; after the filter of a PID was taken away, the others that
/// had a filter have one.
pub proof fn lemma_slots_hold<F>(slots: Seq<Option<F>>, pid: u16, filter: F, other: u16)
    ensures
        slots_hold(slots_with(slots, pid, filter), other) == (other == pid || slots_hold(
            slots,
            other,
        )),
        slots_hold(slots_without(slots, pid), other) == (other != pid && slots_hold(slots, other)),
        slots_with(slots, pid, filter)[pid as int] == Some(filter),
        other != pid && slots_hold(slots, other) ==> {
            &&& slots_with(slots, pid, filter)[other as int] == slots[other as int]
            &&& slots_without(slots, pid)[other as int] == slots[other as int]
        },
{
}

/// The filter for each PID.  A PID is an index into `filters_by_pid`; a slot
/// is empty or owns one filter.
pub struct Filters<F> {
    filters_by_pid: Vec<Option<F>>,
}

impl<F> View for Filters<F> {
    type V = Seq<Option<F>>;

    /// The slots of the table, by PID.
    closed spec fn view(&self) -> Seq<Option<F>> {
        self.filters_by_pid@
    }
}

impl<F> Filters<F> {
    pub fn new() -> (filters: Filters<F>)
        ensures
            filters@.len() == 0,
    {
        Filters { filters_by_pid: Vec::new() }
    }

    /// Whether a filter is installed for `pid`.
    pub fn contains(&self, pid: u16) -> (r: bool)
        ensures
            r == slots_hold(self@, pid),
    {
        (pid as usize) < self.filters_by_pid.len() && self.filters_by_pid[pid as usize].is_some()
    }

    /// The filter installed for `pid`.  What the caller does to it through the
    /// reference is what happens to the slot; no other slot changes.
    pub fn get(&mut self, pid: u16) -> (r: Option<&mut F>)
        ensures
            r is Some == slots_hold(old(self)@, pid),
            r is None ==> final(self)@ == old(self)@,
            r matches Some(filter) ==> *filter == old(self)@[pid as int]->0 && final(self)@ == old(
                self,
            )@.update(pid as int, Some(*final(filter))),
    {
        if pid as usize >= self.filters_by_pid.len() {
            None
        } else {
            self.filters_by_pid[pid as usize].as_mut()
        }
    }

    /// Installs `filter` for `pid`, in place of the one that was there, if any.
    pub fn insert(&mut self, pid: u16, filter: F)
        ensures
            final(self)@ == slots_with(old(self)@, pid, filter),
    {
        while self.filters_by_pid.len() <= pid as usize
            invariant
                old(self)@.len() <= self.filters_by_pid@.len(),
                self.filters_by_pid@.len() <= pid + 1 || self.filters_by_pid@ == old(self)@,
                self.filters_by_pid@ =~= old(self)@ + Seq::new(
                    (self.filters_by_pid@.len() - old(self)@.len()) as nat,
                    |i: int| None::<F>,
                ),
            decreases pid + 1 - self.filters_by_pid@.len(),
        {
            self.filters_by_pid.push(None);
        }
        self.filters_by_pid[pid as usize] = Some(filter);
    }

    /// Takes the filter for `pid` away, if there is one.
    pub fn remove(&mut self, pid: u16)
        ensures
            final(self)@ == slots_without(old(self)@, pid),
    {
        if (pid as usize) < self.filters_by_pid.len() {
            self.filters_by_pid[pid as usize] = None;
        }
    }

    /// The PIDs that have a filter, in ascending order.
    pub fn pids(&self) -> (r: Vec<u16>)
        ensures
            forall|pid: u16| r@.contains(pid) <==> slots_hold(self@, pid),
            forall|i: int, j: int| 0 <= i < j < r@.len() ==> r@[i] < r@[j],
    {
        let end: usize = if self.filters_by_pid.len() < 0x1_0000 {
            self.filters_by_pid.len()
        } else {
            0x1_0000
        };
        let mut r: Vec<u16> = Vec::new();
        let mut i: usize = 0;
        while i < end
            invariant
                i <= end <= self.filters_by_pid@.len(),
                end <= 0x1_0000,
                end == self.filters_by_pid@.len() || end == 0x1_0000,
                forall|pid: u16| r@.contains(pid) <==> pid < i && slots_hold(self@, pid),
                forall|k: int, j: int| 0 <= k < j < r@.len() ==> r@[k] < r@[j],
                forall|k: int| 0 <= k < r@.len() ==> r@[k] < i,
            decreases end - i,
        {
            if self.filters_by_pid[i].is_some() {
                let ghost before = r@;
                r.push(i as u16);
                assert forall|pid: u16| r@.contains(pid) <==> pid < i + 1 && slots_hold(
                    self@,
                    pid,
                ) by {
                    if r@.contains(pid) {
                        let k = choose|k: int| 0 <= k < r@.len() && r@[k] == pid;
                        if k < before.len() {
                            assert(before.contains(pid));
                        }
                    }
                    if pid < i + 1 && slots_hold(self@, pid) {
                        if pid < i {
                            assert(before.contains(pid));
                            let k = choose|k: int| 0 <= k < before.len() && before[k] == pid;
                            assert(r@[k] == pid);
                        } else {
                            assert(r@[before.len() as int] == pid);
                        }
                    }
                }
            }
            i += 1;
        }
        r
    }
}

/// One change to the filter table.
pub enum FilterChange<F> {
    Insert(u16, F),
    Remove(u16),
}

impl<F> FilterChange<F> {
    /// The slots of a filter table after the change was made to it.
    pub open spec fn applied(self, slots: Seq<Option<F>>) -> Seq<Option<F>> {
        match self {
            FilterChange::Insert(pid, filter) => slots_with(slots, pid, filter),
            FilterChange::Remove(pid) => slots_without(slots, pid),
        }
    }

    /// The PID whose slot the change is for.
    pub open spec fn spec_pid(&self) -> u16 {
        match *self {
            FilterChange::Insert(pid, _) => pid,
            FilterChange::Remove(pid) => pid,
        }
    }

    #[verifier::when_used_as_spec(spec_pid)]
    pub fn pid(&self) -> (r: u16)
        ensures
            r == self.spec_pid(),
    {
        match self {
            FilterChange::Insert(pid, _) => *pid,
            FilterChange::Remove(pid) => *pid,
        }
    }

    pub fn is_insert(&self) -> (r: bool)
        ensures
            r == (*self is Insert),
    {
        match self {
            FilterChange::Insert(_, _) => true,
            FilterChange::Remove(_) => false,
        }
    }

    pub fn is_remove(&self) -> (r: bool)
        ensures
            r == (*self is Remove),
    {
        match self {
            FilterChange::Insert(_, _) => false,
            FilterChange::Remove(_) => true,
        }
    }

    /// Makes the change to `filters`.
    pub fn apply(self, filters: &mut Filters<F>)
        ensures
            final(filters)@ == self.applied(old(filters)@),
    {
        match self {
            FilterChange::Insert(pid, filter) => filters.insert(pid, filter),
            FilterChange::Remove(pid) => filters.remove(pid),
        };
    }
}

/// The slots of a filter table after `changes` were made to it, first to last.
pub open spec fn applied_all<F>(changes: Seq<FilterChange<F>>, slots: Seq<Option<F>>) -> Seq<
    Option<F>,
>
    decreases changes.len(),
{
    if changes.len() == 0 {
        slots
    } else {
        changes.last().applied(applied_all(changes.drop_last(), slots))
    }
}

/// The changes to the filter table that wait to be made, oldest first.
pub struct FilterChangeset<F> {
    updates: Vec<FilterChange<F>>,
}

impl<F> View for FilterChangeset<F> {
    type V = Seq<FilterChange<F>>;

    closed spec fn view(&self) -> Seq<FilterChange<F>> {
        self.updates@
    }
}

impl<F> FilterChangeset<F> {
    pub fn new() -> (changeset: FilterChangeset<F>)
        ensures
            changeset@.len() == 0,
    {
        FilterChangeset { updates: Vec::new() }
    }

    /// Asks for `filter` to be installed for `pid`.
    pub fn insert(&mut self, pid: u16, filter: F)
        ensures
            final(self)@ == old(self)@.push(FilterChange::Insert(pid, filter)),
    {
        self.updates.push(FilterChange::Insert(pid, filter))
    }

    /// Asks for the filter for `pid` to be taken away.
    pub fn remove(&mut self, pid: u16)
        ensures
            final(self)@ == old(self)@.push(FilterChange::Remove(pid)),
    {
        self.updates.push(FilterChange::Remove(pid))
    }

    /// Makes the waiting changes to `filters`, oldest first, and forgets them.
    pub fn apply(&mut self, filters: &mut Filters<F>)
        ensures
            final(self)@.len() == 0,
            final(filters)@ == applied_all(old(self)@, old(filters)@),
    {
        let mut updates: Vec<FilterChange<F>> = Vec::new();
        std::mem::swap(&mut self.updates, &mut updates);
        let ghost all = updates@;
        for update in it: updates
            invariant
                it.seq() == all,
                filters@ == applied_all(all.take(it.index() as int), old(filters)@),
                self.updates@.len() == 0,
        {
            proof {
                let k = it.index() as int;
                assert(all.take(k + 1).drop_last() =~= all.take(k));
            }
            update.apply(filters);
        }
        assert(all.take(all.len() as int) =~= all);
    }

    pub fn is_empty(&self) -> (r: bool)
        ensures
            r == (self@.len() == 0),
    {
        self.updates.is_empty()
    }

    /// How many changes wait.
    pub fn len(&self) -> (r: usize)
        ensures
            r == self@.len(),
    {
        self.updates.len()
    }

    /// Hands the waiting changes out, oldest first.
    pub fn into_vec(self) -> (r: Vec<FilterChange<F>>)
        ensures
            r@ == self@,
    {
        self.updates
    }

    /// Forgets the waiting changes without making them.
    pub fn clear(&mut self)
        ensures
            final(self)@.len() == 0,
    {
        self.updates.clear()
    }
}

} // verus!
