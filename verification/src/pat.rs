//! The Program Association Table: the programs of a transport stream, and
//! the PID on which each announces its elementary streams.

use crate::context::{
    consumes_all, DemuxContext, FilterRequest, PacketFilter, RequestView, StreamConstructor,
};
use crate::filters::FilterChange;
use crate::packet::Packet;
use crate::psi::{
    SectionCommonHeader, SectionPacketConsumer, TableSyntaxHeader, WholeSectionSyntaxPayloadParser,
};
use crate::registry::{announce, retire_stale, Announcement, PID_COUNT};
use fixedbitset::FixedBitSet;
use std::collections::HashSet;
use std::marker::PhantomData;
use vstd::prelude::*;

verus! {

/// The size in bytes of one entry of the table.
pub const PROGRAM_DESCRIPTOR_SIZE: usize = 4;

/// The 16-bit program number in bytes 0 and 1 of an entry.
pub open spec fn program_number_of(bytes: Seq<u8>) -> u16 {
    ((bytes[0] as u16) << 8) | (bytes[1] as u16)
}

/// The 13-bit PID in the low five bits of byte 2 and in byte 3 of an entry.
pub open spec fn program_pid_of(bytes: Seq<u8>) -> u16 {
    (((bytes[2] as u16) & 0b0001_1111) << 8) | (bytes[3] as u16)
}

/// How many whole entries a table body holds.
pub open spec fn program_count(body: Seq<u8>) -> nat {
    (body.len() / PROGRAM_DESCRIPTOR_SIZE as nat)
}

/// The bytes of entry `i` of a table body.
pub open spec fn program_at(body: Seq<u8>, i: int) -> Seq<u8> {
    body.subrange(
        PROGRAM_DESCRIPTOR_SIZE * i,
        PROGRAM_DESCRIPTOR_SIZE * i + PROGRAM_DESCRIPTOR_SIZE,
    )
}

/// The entries of a table body, in order.  Bytes after the last whole entry
/// belong to none.
pub open spec fn pat_programs(body: Seq<u8>) -> Seq<Seq<u8>> {
    Seq::new(program_count(body), |i: int| program_at(body, i))
}

/// The PID of an entry fits in 13 bits.
pub proof fn lemma_program_pid_in_range(bytes: Seq<u8>)
    ensures
        program_pid_of(bytes) < 0x2000,
{
    let hi = bytes[2];
    let lo = bytes[3];
    assert(((((hi as u16) & 0b0001_1111) << 8) | (lo as u16)) < 0x2000) by (bit_vector);
}

/// One entry of a Program Association Table.
#[derive(Clone, Copy)]
pub struct ProgramDescriptor<'buf> {
    data: &'buf [u8],
}

impl<'buf> View for ProgramDescriptor<'buf> {
    type V = Seq<u8>;

    /// The four bytes of the entry.
    closed spec fn view(&self) -> Seq<u8> {
        self.data@
    }
}

impl<'buf> ProgramDescriptor<'buf> {
    #[verifier::type_invariant]
    spec fn well_formed(self) -> bool {
        self.data@.len() == PROGRAM_DESCRIPTOR_SIZE
    }

    /// Reads the entry at the start of `data`, which must hold at least four
    /// bytes.
    pub fn from_bytes(data: &'buf [u8]) -> (r: ProgramDescriptor<'buf>)
        requires
            data@.len() >= PROGRAM_DESCRIPTOR_SIZE,
        ensures
            r@ == data@.take(PROGRAM_DESCRIPTOR_SIZE as int),
    {
        ProgramDescriptor { data: &data[0..PROGRAM_DESCRIPTOR_SIZE] }
    }

    pub fn program_number(&self) -> (r: u16)
        ensures
            self@.len() == PROGRAM_DESCRIPTOR_SIZE,
            r == program_number_of(self@),
    {
        proof {
            use_type_invariant(self);
        }
        (u16::from(self.data[0]) << 8) | u16::from(self.data[1])
    }

    /// The PID that carries the program's Program Map Table.
    pub fn pid(&self) -> (r: u16)
        ensures
            self@.len() == PROGRAM_DESCRIPTOR_SIZE,
            r == program_pid_of(self@),
            r < 0x2000,
    {
        proof {
            use_type_invariant(self);
            lemma_program_pid_in_range(self@);
        }
        (u16::from(self.data[2]) & 0b0001_1111) << 8 | u16::from(self.data[3])
    }
}

/// The body of a Program Association Table section: what stands between the
/// table syntax header and the checksum.
#[derive(Clone, Copy)]
pub struct PatSection<'buf> {
    data: &'buf [u8],
}

impl<'buf> View for PatSection<'buf> {
    type V = Seq<u8>;

    /// The bytes of the body.
    closed spec fn view(&self) -> Seq<u8> {
        self.data@
    }
}

impl<'buf> PatSection<'buf> {
    pub fn new(data: &'buf [u8]) -> (section: PatSection<'buf>)
        ensures
            section@ == data@,
    {
        PatSection { data }
    }

    /// Walks the entries of the table.
    pub fn programs(&self) -> (r: ProgramIter<'buf>)
        ensures
            r@ == self@,
    {
        ProgramIter { buf: self.data }
    }
}

/// Walks the entries in a run of bytes.
pub struct ProgramIter<'buf> {
    buf: &'buf [u8],
}

impl<'buf> View for ProgramIter<'buf> {
    type V = Seq<u8>;

    /// The bytes that have not been walked yet.
    closed spec fn view(&self) -> Seq<u8> {
        self.buf@
    }
}

impl<'buf> ProgramIter<'buf> {
    /// The next entry, or `None` where fewer than four bytes are left.
    pub fn next(&mut self) -> (r: Option<ProgramDescriptor<'buf>>)
        ensures
            old(self)@.len() >= PROGRAM_DESCRIPTOR_SIZE ==> r is Some && r->0@ == old(self)@.take(
                PROGRAM_DESCRIPTOR_SIZE as int,
            ) && final(self)@ == old(self)@.skip(PROGRAM_DESCRIPTOR_SIZE as int),
            old(self)@.len() < PROGRAM_DESCRIPTOR_SIZE ==> r is None && final(self)@ == old(self)@,
    {
        if self.buf.len() < PROGRAM_DESCRIPTOR_SIZE {
            return None;
        }
        let head = &self.buf[0..PROGRAM_DESCRIPTOR_SIZE];
        self.buf = &self.buf[PROGRAM_DESCRIPTOR_SIZE..self.buf.len()];
        Some(ProgramDescriptor::from_bytes(head))
    }
}

/// The `table_id` of a Program Association Table section.
pub const PAT_TABLE_ID: u8 = 0x00;

/// The PIDs that the entries of a table body name, in order.
pub open spec fn program_pids(body: Seq<u8>) -> Seq<u16> {
    Seq::new(program_count(body), |i: int| program_pid_of(program_at(body, i)))
}

/// The requests for filters that the entries of a table body give rise to, in
/// order: one for each entry, with the entry's PID and program number.
pub open spec fn program_requests(body: Seq<u8>) -> Seq<RequestView> {
    Seq::new(
        program_count(body),
        |i: int|
            RequestView::Pmt {
                pid: program_pid_of(program_at(body, i)),
                program_number: program_number_of(program_at(body, i)),
            },
    )
}

/// Keeps the filter table in step with the Program Association Table: asks
/// for a filter for the Program Map Table of every program that a new table
/// announces, and for the removal of those of programs that it no longer
/// announces.
pub struct PatProcessor<Ctx: DemuxContext> {
    current_version: Option<u8>,
    filters_registered: FixedBitSet,
    phantom: PhantomData<Ctx>,
}

impl<Ctx: DemuxContext> PatProcessor<Ctx> {
    /// The PIDs for which this processor has asked for a filter that it has
    /// not asked to remove since.
    pub closed spec fn registered(&self) -> Set<u16> {
        crate::registry::recorded(self.filters_registered)
    }

    pub closed spec fn spec_current_version(&self) -> Option<u8> {
        self.current_version
    }

    pub fn new() -> (processor: PatProcessor<Ctx>)
        ensures
            processor.registered() == Set::<u16>::empty(),
            processor.spec_current_version() is None,
    {
        PatProcessor {
            current_version: None,
            filters_registered: FixedBitSet::with_capacity(PID_COUNT),
            phantom: PhantomData,
        }
    }

    /// The version of the table that was handled last.
    #[verifier::when_used_as_spec(spec_current_version)]
    pub fn current_version(&self) -> (r: Option<u8>)
        ensures
            r == self.spec_current_version(),
    {
        self.current_version
    }

    /// Whether `pid` is among the [`registered`](Self::registered) PIDs.
    pub fn is_registered(&self, pid: u16) -> (r: bool)
        ensures
            r == self.registered().contains(pid),
    {
        (pid as usize) < PID_COUNT && self.filters_registered.contains(pid as usize)
    }

    /// What [`new_table`](Self::new_table) does on a table with the body
    /// `body`, announced with `table_id` and `version`.
    ///
    /// A table with another `table_id` than that of a Program Association
    /// Table changes nothing.  Otherwise the constructor is asked for one
    /// filter for each entry, in order; the pending changes grow by the
    /// insertion of each of these filters at its entry's PID, in order, and
    /// then by the removal, in ascending order, of each PID that was
    /// registered and that no entry names; the PIDs that the entries name
    /// are the registered PIDs afterwards.
    pub open spec fn tabled(
        pre: Self,
        edits: Seq<FilterChange<Ctx::F>>,
        ctor: Ctx::Ctor,
        table_id: u8,
        version: u8,
        body: Seq<u8>,
        post: Self,
        post_edits: Seq<FilterChange<Ctx::F>>,
        post_ctor: Ctx::Ctor,
    ) -> bool {
        if table_id != PAT_TABLE_ID {
            post == pre && post_edits == edits && post_ctor == ctor
        } else {
            &&& post.registered() == program_pids(body).to_set()
            &&& post.spec_current_version() == Some(version)
            &&& exists|filters: Seq<Ctx::F>|
                {
                    &&& #[trigger] crate::registry::constructs_all::<Ctx::Ctor>(
                        ctor,
                        program_requests(body),
                        post_ctor,
                        filters,
                    )
                    &&& post_edits == edits + crate::registry::insertions(
                        program_pids(body),
                        filters,
                    ) + crate::registry::removals(
                        crate::registry::stale_pids(
                            pre.registered(),
                            program_pids(body).to_set(),
                            PID_COUNT as int,
                        ),
                    )
                }
        }
    }

    /// Handles a new version of the table.
    pub fn new_table(
        &mut self,
        ctx: &mut Ctx,
        header: &SectionCommonHeader,
        table_syntax_header: &TableSyntaxHeader,
        sect: &PatSection,
    )
        ensures
            Self::tabled(
                *old(self),
                old(ctx).changeset()@,
                old(ctx).constructor(),
                header.table_id,
                crate::psi::version_of(table_syntax_header@),
                sect@,
                *final(self),
                final(ctx).changeset()@,
                final(ctx).constructor(),
            ),
    {
        if PAT_TABLE_ID != header.table_id {
            return ;
        }
        let ghost body = sect@;
        // the record spans every PID: it was made so, and never shrinks
        self.filters_registered.grow(PID_COUNT);
        let mut pids_seen: HashSet<u16> = HashSet::new();
        let mut programs = sect.programs();
        let ghost mut sofar = Announcement::<Ctx>::begin(*ctx, self.filters_registered);
        proof {
            crate::registry::lemma_announcement_begins(*ctx, pids_seen@, self.filters_registered);
        }
        // add or update filters for the programs of this table,
        loop
            invariant
                sofar.holds(*ctx, pids_seen@, self.filters_registered),
                sofar.edits == old(ctx).changeset()@,
                sofar.constructor == old(ctx).constructor(),
                sofar.registered == old(self).registered(),
                sofar.pids.len() <= program_count(body),
                sofar.pids == program_pids(body).take(sofar.pids.len() as int),
                sofar.requests == program_requests(body).take(sofar.pids.len() as int),
                programs@ == body.skip(PROGRAM_DESCRIPTOR_SIZE * sofar.pids.len()),
            ensures
                sofar.pids.len() == program_count(body),
            decreases program_count(body) - sofar.pids.len(),
        {
            let desc = match programs.next() {
                Some(desc) => desc,
                None => {
                    break ;
                },
            };
            let pid = desc.pid();
            let program_number = desc.program_number();
            let made = announce(
                &mut self.filters_registered,
                &mut pids_seen,
                ctx,
                pid,
                FilterRequest::Pmt { pid, program_number },
                Ghost(sofar),
            );
            proof {
                sofar = sofar.with(pid, RequestView::Pmt { pid, program_number }, made@);
            }
        }
        let ghost announced = *ctx;
        let ghost grown = self.filters_registered;
        // remove filters for the programs of the table before that this table
        // does not name,
        retire_stale(&mut self.filters_registered, &pids_seen, ctx);
        self.current_version = Some(table_syntax_header.version());
        proof {
            assert(sofar.pids =~= program_pids(body));
            assert(sofar.requests =~= program_requests(body));
            crate::registry::lemma_announcement_done(
                sofar,
                announced,
                pids_seen@,
                grown,
                *ctx,
                self.filters_registered,
            );
        }
    }
}

impl<Ctx: DemuxContext> WholeSectionSyntaxPayloadParser for PatProcessor<Ctx> {
    type Context = Ctx;

    /// A section too short to hold both headers and the checksum changes
    /// nothing; any other is handled as [`PatProcessor::tabled`] says of its
    /// body.
    open spec fn accepts(
        pre: Self,
        pre_ctx: Ctx,
        header: SectionCommonHeader,
        table_syntax_header: Seq<u8>,
        data: Seq<u8>,
        post: Self,
        post_ctx: Ctx,
    ) -> bool {
        if data.len() < crate::psi::MIN_SECTION_SIZE {
            post == pre && post_ctx == pre_ctx
        } else {
            Self::tabled(
                pre,
                pre_ctx.changeset()@,
                pre_ctx.constructor(),
                header.table_id,
                crate::psi::version_of(table_syntax_header),
                crate::psi::section_body(data),
                post,
                post_ctx.changeset()@,
                post_ctx.constructor(),
            )
        }
    }

    fn section(
        &mut self,
        ctx: &mut Ctx,
        header: &SectionCommonHeader,
        table_syntax_header: &TableSyntaxHeader,
        data: &[u8],
    ) {
        if data.len() < crate::psi::MIN_SECTION_SIZE {
            return ;
        }
        let start = SectionCommonHeader::SIZE + TableSyntaxHeader::SIZE;
        let end = data.len() - crate::psi::CRC_SIZE;  // remove CRC bytes
        self.new_table(ctx, header, table_syntax_header, &PatSection::new(&data[start..end]));
    }
}

/// The filter for PID 0: reassembles the sections of the Program Association
/// Table and hands each new version of the table to a [`PatProcessor`].
pub struct PatPacketFilter<Ctx: DemuxContext> {
    pat_section_packet_consumer: SectionPacketConsumer<PatProcessor<Ctx>>,
}

impl<Ctx: DemuxContext> PatPacketFilter<Ctx> {
    /// Where the reassembly of sections stands.
    pub closed spec fn assembly(&self) -> crate::psi::Assembly {
        self.pat_section_packet_consumer@
    }

    /// The processor that the tables are handed to.
    pub closed spec fn processor(&self) -> PatProcessor<Ctx> {
        self.pat_section_packet_consumer.parser()
    }

    pub fn new() -> (filter: PatPacketFilter<Ctx>)
        ensures
            filter.assembly() == crate::psi::idle(None),
            filter.processor().registered() == Set::<u16>::empty(),
            filter.processor().spec_current_version() is None,
    {
        let pat_proc = PatProcessor::new();
        PatPacketFilter { pat_section_packet_consumer: SectionPacketConsumer::new(pat_proc) }
    }
}

impl<Ctx: DemuxContext> PacketFilter for PatPacketFilter<Ctx> {
    type Ctx = Ctx;

    /// The reassembly moves as [`fed`](crate::psi::fed) says, and the
    /// processor is handed the sections that the packet completes, one after
    /// the other.
    open spec fn consumes(
        pre: Self,
        edits: Seq<FilterChange<Ctx::F>>,
        ctor: Ctx::Ctor,
        pk: Seq<u8>,
        post: Self,
        post_edits: Seq<FilterChange<Ctx::F>>,
        post_ctor: Ctx::Ctor,
    ) -> bool {
        &&& post.assembly() == crate::psi::fed(pre.assembly(), pk).state
        &&& exists|pre_ctx: Ctx, post_ctx: Ctx|
            {
                &&& pre_ctx.changeset()@ == edits
                &&& pre_ctx.constructor() == ctor
                &&& post_ctx.changeset()@ == post_edits
                &&& post_ctx.constructor() == post_ctor
                &&& #[trigger] crate::psi::delivers::<PatProcessor<Ctx>>(
                    pre.processor(),
                    pre_ctx,
                    crate::psi::fed(pre.assembly(), pk).delivered,
                    post.processor(),
                    post_ctx,
                )
            }
    }

    fn consume(&mut self, ctx: &mut Ctx, pk: Packet) {
        self.pat_section_packet_consumer.consume(ctx, pk);
    }
}

/// What a new table does to the registered PIDs and to the pending changes.
///
/// Where a processor with the registered PIDs `S` handles a table that names
/// the PIDs `S'`: afterwards `S'` are the registered PIDs; the changes that
/// waited still wait, and after them one insertion for each entry of the
/// table, at the entry's PID, and then one removal for each PID of `S` that
/// is not in `S'`, and nothing else.  The table asks for an insertion for
/// every entry, also where the PID was registered before, so that the
/// insertions are as many as `S'` has PIDs only where no two entries name
/// the same PID.
pub proof fn lemma_table_diff<Ctx: DemuxContext>(
    pre: PatProcessor<Ctx>,
    edits: Seq<FilterChange<Ctx::F>>,
    ctor: Ctx::Ctor,
    version: u8,
    body: Seq<u8>,
    post: PatProcessor<Ctx>,
    post_edits: Seq<FilterChange<Ctx::F>>,
    post_ctor: Ctx::Ctor,
)
    requires
        PatProcessor::<Ctx>::tabled(
            pre,
            edits,
            ctor,
            PAT_TABLE_ID,
            version,
            body,
            post,
            post_edits,
            post_ctor,
        ),
    ensures
        post.registered() == program_pids(body).to_set(),
        pre.registered().difference(post.registered()).finite(),
        post_edits.len() == edits.len() + program_count(body) + pre.registered().difference(
            post.registered(),
        ).len(),
        post_edits.take(edits.len() as int) == edits,
        forall|i: int|
            0 <= i < program_count(body) ==> (#[trigger] post_edits[edits.len() + i]) is Insert
                && post_edits[edits.len() + i].spec_pid() == program_pids(body)[i],
        forall|i: int|
            edits.len() + program_count(body) <= i < post_edits.len() ==> (
            #[trigger] post_edits[i]) is Remove && pre.registered().contains(
                post_edits[i].spec_pid(),
            ) && !post.registered().contains(post_edits[i].spec_pid()),
        program_pids(body).no_duplicates() ==> post.registered().len() == program_count(body),
{
    let pids = program_pids(body);
    let filters = choose|filters: Seq<Ctx::F>|
        {
            &&& #[trigger] crate::registry::constructs_all::<Ctx::Ctor>(
                ctor,
                program_requests(body),
                post_ctor,
                filters,
            )
            &&& post_edits == edits + crate::registry::insertions(pids, filters)
                + crate::registry::removals(
                crate::registry::stale_pids(pre.registered(), pids.to_set(), PID_COUNT as int),
            )
        };
    crate::registry::lemma_constructs_all_len::<Ctx::Ctor>(
        ctor,
        program_requests(body),
        post_ctor,
        filters,
    );
    crate::registry::lemma_table_changes(pids, filters, pre.registered());
    let changes = crate::registry::insertions(pids, filters) + crate::registry::removals::<Ctx::F>(
        crate::registry::stale_pids(pre.registered(), pids.to_set(), PID_COUNT as int),
    );
    assert(post_edits =~= edits + changes);
}

/// A table without entries asks for removals only: of every PID that was
/// registered, in ascending order.  No PID is registered afterwards, and no
/// filter is made.
pub proof fn lemma_empty_table_only_removes<Ctx: DemuxContext>(
    pre: PatProcessor<Ctx>,
    edits: Seq<FilterChange<Ctx::F>>,
    ctor: Ctx::Ctor,
    version: u8,
    body: Seq<u8>,
    post: PatProcessor<Ctx>,
    post_edits: Seq<FilterChange<Ctx::F>>,
    post_ctor: Ctx::Ctor,
)
    requires
        PatProcessor::<Ctx>::tabled(
            pre,
            edits,
            ctor,
            PAT_TABLE_ID,
            version,
            body,
            post,
            post_edits,
            post_ctor,
        ),
        program_count(body) == 0,
    ensures
        post_edits == edits + crate::registry::removals::<Ctx::F>(
            crate::registry::stale_pids(pre.registered(), Set::empty(), PID_COUNT as int),
        ),
        post.registered() == Set::<u16>::empty(),
        post_ctor == ctor,
{
    let pids = program_pids(body);
    assert(pids.to_set() =~= Set::<u16>::empty());
    let filters = choose|filters: Seq<Ctx::F>|
        {
            &&& #[trigger] crate::registry::constructs_all::<Ctx::Ctor>(
                ctor,
                program_requests(body),
                post_ctor,
                filters,
            )
            &&& post_edits == edits + crate::registry::insertions(pids, filters)
                + crate::registry::removals(
                crate::registry::stale_pids(pre.registered(), pids.to_set(), PID_COUNT as int),
            )
        };
    assert(edits + crate::registry::insertions(pids, filters) =~= edits);
}

/// While the packets handed to the filter complete no section, nothing but
/// the reassembly changes.
proof fn lemma_quiet_packets<Ctx: DemuxContext>(
    pre: PatPacketFilter<Ctx>,
    edits: Seq<FilterChange<Ctx::F>>,
    ctor: Ctx::Ctor,
    pks: Seq<Seq<u8>>,
    n: int,
    post: PatPacketFilter<Ctx>,
    post_edits: Seq<FilterChange<Ctx::F>>,
    post_ctor: Ctx::Ctor,
)
    requires
        crate::psi::fed_all(pre.assembly(), pks).delivered.len() == 0,
        0 <= n <= pks.len(),
        consumes_all::<PatPacketFilter<Ctx>>(
            pre,
            edits,
            ctor,
            pks.take(n),
            post,
            post_edits,
            post_ctor,
        ),
    ensures
        post.assembly() == crate::psi::fed_all(pre.assembly(), pks.take(n)).state,
        post.processor() == pre.processor(),
        post_edits == edits,
        post_ctor == ctor,
    decreases n,
{
    if n > 0 {
        assert(pks.take(n).drop_last() =~= pks.take(n - 1));
        let (mid, mid_edits, mid_ctor) = choose|
            mid: PatPacketFilter<Ctx>,
            mid_edits: Seq<FilterChange<Ctx::F>>,
            mid_ctor: Ctx::Ctor,
        |
            {
                &&& consumes_all::<PatPacketFilter<Ctx>>(
                    pre,
                    edits,
                    ctor,
                    pks.take(n).drop_last(),
                    mid,
                    mid_edits,
                    mid_ctor,
                )
                &&& #[trigger] PatPacketFilter::<Ctx>::consumes(
                    mid,
                    mid_edits,
                    mid_ctor,
                    pks.take(n).last(),
                    post,
                    post_edits,
                    post_ctor,
                )
            };
        lemma_quiet_packets(pre, edits, ctor, pks, n - 1, mid, mid_edits, mid_ctor);
        crate::psi::lemma_none_delivered(pre.assembly(), pks, n - 1);
    }
}

/// The same table twice: where packets carry one section, and the filter
/// has just consumed them, the filter consumes them again without a change
/// to its processor, to the pending changes or to the constructor.
pub proof fn lemma_repeated_table_changes_nothing<Ctx: DemuxContext>(
    first: crate::psi::Assembly,
    pre: PatPacketFilter<Ctx>,
    edits: Seq<FilterChange<Ctx::F>>,
    ctor: Ctx::Ctor,
    pks: Seq<Seq<u8>>,
    post: PatPacketFilter<Ctx>,
    post_edits: Seq<FilterChange<Ctx::F>>,
    post_ctor: Ctx::Ctor,
)
    requires
        crate::psi::carries_section(pks),
        pre.assembly() == crate::psi::fed_all(first, pks).state,
        consumes_all::<PatPacketFilter<Ctx>>(pre, edits, ctor, pks, post, post_edits, post_ctor),
    ensures
        post.processor() == pre.processor(),
        post.assembly() == pre.assembly(),
        post_edits == edits,
        post_ctor == ctor,
{
    crate::psi::lemma_repeated_section_dropped(first, pks);
    assert(pks.take(pks.len() as int) =~= pks);
    lemma_quiet_packets(pre, edits, ctor, pks, pks.len() as int, post, post_edits, post_ctor);
}

} // verus!
