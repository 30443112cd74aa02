//! The Program Map Table: the elementary streams of one program.

use crate::context::{DemuxContext, FilterRequest, PacketFilter, RequestView, StreamConstructor};
use crate::descriptor::DescriptorIter;
use crate::filters::FilterChange;
use crate::packet::Packet;
use crate::psi::{
    SectionCommonHeader, SectionPacketConsumer, TableSyntaxHeader, WholeSectionSyntaxPayloadParser,
};
use crate::registry::{announce, retire_stale, Announcement, PID_COUNT};
use crate::stream_type::StreamType;
use fixedbitset::FixedBitSet;
use std::collections::HashSet;
use std::marker::PhantomData;
use vstd::prelude::*;

verus! {

/// The size in bytes of what precedes the descriptors of one stream entry.
pub const STREAM_INFO_HEADER_SIZE: usize = 5;

/// The size in bytes of what precedes the program's descriptors.
pub const PMT_HEADER_SIZE: usize = 4;

/// The 13-bit PID in the low five bits of byte 1 and in byte 2 of a stream
/// entry.
pub open spec fn elementary_pid_of(bytes: Seq<u8>) -> u16 {
    (((bytes[1] & 0b0001_1111) as u16) << 8) | (bytes[2] as u16)
}

/// The 12-bit length of the descriptors of a stream entry, in the low four
/// bits of byte 3 and in byte 4.
pub open spec fn es_info_length_of(bytes: Seq<u8>) -> u16 {
    (((bytes[3] & 0b0000_1111) as u16) << 8) | (bytes[4] as u16)
}

/// The size in bytes of the stream entry at the start of `bytes`, where
/// `bytes` holds all of it, descriptors included.
pub open spec fn stream_info_size(bytes: Seq<u8>) -> Option<int> {
    if bytes.len() >= STREAM_INFO_HEADER_SIZE && STREAM_INFO_HEADER_SIZE + es_info_length_of(bytes)
        <= bytes.len() {
        Some(STREAM_INFO_HEADER_SIZE + es_info_length_of(bytes))
    } else {
        None
    }
}

/// The stream entries that `bytes` holds, each with its descriptors, up to
/// the first that `bytes` does not hold whole.
pub open spec fn stream_infos_of(bytes: Seq<u8>) -> Seq<Seq<u8>>
    decreases bytes.len(),
{
    match stream_info_size(bytes) {
        Some(n) => seq![bytes.take(n)] + stream_infos_of(bytes.skip(n)),
        None => Seq::empty(),
    }
}

/// The 13-bit PID that carries the program's clock, in the low five bits of
/// byte 0 and in byte 1 of a table body.
pub open spec fn pcr_pid_of(body: Seq<u8>) -> u16 {
    (((body[0] & 0b0001_1111) as u16) << 8) | (body[1] as u16)
}

/// The 12-bit length of the program's descriptors, in the low four bits of
/// byte 2 and in byte 3 of a table body.
pub open spec fn program_info_length_of(body: Seq<u8>) -> u16 {
    (((body[2] & 0b0000_1111) as u16) << 8) | (body[3] as u16)
}

/// Whether a table body holds its header and all of the program's
/// descriptors.
pub open spec fn holds_program_info(body: Seq<u8>) -> bool {
    body.len() >= PMT_HEADER_SIZE && PMT_HEADER_SIZE + program_info_length_of(body) <= body.len()
}

/// The stream entries of a table body: those that follow the program's
/// descriptors, or none where the body does not hold these whole.
pub open spec fn pmt_streams(body: Seq<u8>) -> Seq<Seq<u8>> {
    if holds_program_info(body) {
        stream_infos_of(body.skip(PMT_HEADER_SIZE + program_info_length_of(body)))
    } else {
        Seq::empty()
    }
}

/// A 13-bit field fits in 13 bits, a 12-bit field in 12.
pub proof fn lemma_field_ranges(hi: u8, lo: u8)
    ensures
        ((((hi & 0b0001_1111) as u16) << 8) | (lo as u16)) < 0x2000,
        ((((hi & 0b0000_1111) as u16) << 8) | (lo as u16)) < 0x1000,
{
    assert(((((hi & 0b0001_1111) as u16) << 8) | (lo as u16)) < 0x2000) by (bit_vector);
    assert(((((hi & 0b0000_1111) as u16) << 8) | (lo as u16)) < 0x1000) by (bit_vector);
}

/// One entry of a Program Map Table: an elementary stream of the program.
#[derive(Clone, Copy)]
pub struct StreamInfo<'buf> {
    data: &'buf [u8],
}

impl<'buf> View for StreamInfo<'buf> {
    type V = Seq<u8>;

    /// The bytes of the entry, descriptors included.
    closed spec fn view(&self) -> Seq<u8> {
        self.data@
    }
}

impl<'buf> StreamInfo<'buf> {
    #[verifier::type_invariant]
    spec fn well_formed(self) -> bool {
        stream_info_size(self.data@) == Some(self.data@.len() as int)
    }

    /// Reads the entry at the start of `data`, and says how many bytes it
    /// takes.  `None` where `data` is too short for the entry's header, or for
    /// the descriptors that the header announces.
    pub fn from_bytes(data: &'buf [u8]) -> (r: Option<(StreamInfo<'buf>, usize)>)
        ensures
            r is Some == stream_info_size(data@) is Some,
            r matches Some((info, size)) ==> stream_info_size(data@) == Some(size as int) && info@
                == data@.take(size as int),
    {
        if data.len() < STREAM_INFO_HEADER_SIZE {
            return None;
        }
        proof {
            lemma_field_ranges(data@[3], data@[4]);
        }
        let es_info_length: u16 = (u16::from(data[3] & 0b0000_1111) << 8) | u16::from(data[4]);
        let descriptor_end: usize = STREAM_INFO_HEADER_SIZE + es_info_length as usize;
        if descriptor_end > data.len() {
            return None;
        }
        let result = StreamInfo { data: &data[0..descriptor_end] };
        Some((result, descriptor_end))
    }

    pub fn stream_type(&self) -> (r: StreamType)
        ensures
            stream_info_size(self@) == Some(self@.len() as int),
            r == StreamType(self@[0]),
    {
        proof {
            use_type_invariant(self);
        }
        StreamType(self.data[0])
    }

    pub fn reserved1(&self) -> (r: u8)
        ensures
            stream_info_size(self@) == Some(self@.len() as int),
            r == self@[1] >> 5,
    {
        proof {
            use_type_invariant(self);
        }
        self.data[1] >> 5
    }

    pub fn elementary_pid(&self) -> (r: u16)
        ensures
            stream_info_size(self@) == Some(self@.len() as int),
            r == elementary_pid_of(self@),
            r < 0x2000,
    {
        proof {
            use_type_invariant(self);
            lemma_field_ranges(self@[1], self@[2]);
        }
        u16::from(self.data[1] & 0b0001_1111) << 8 | u16::from(self.data[2])
    }

    pub fn reserved2(&self) -> (r: u8)
        ensures
            stream_info_size(self@) == Some(self@.len() as int),
            r == self@[3] >> 4,
    {
        proof {
            use_type_invariant(self);
        }
        self.data[3] >> 4
    }

    pub fn es_info_length(&self) -> (r: u16)
        ensures
            stream_info_size(self@) == Some(self@.len() as int),
            r == es_info_length_of(self@),
            r == self@.len() - STREAM_INFO_HEADER_SIZE,
    {
        proof {
            use_type_invariant(self);
        }
        u16::from(self.data[3] & 0b0000_1111) << 8 | u16::from(self.data[4])
    }

    /// Walks the descriptors of the stream.
    pub fn descriptors(&self) -> (r: DescriptorIter<'buf>)
        ensures
            stream_info_size(self@) == Some(self@.len() as int),
            r@ == self@.skip(STREAM_INFO_HEADER_SIZE as int),
    {
        proof {
            use_type_invariant(self);
        }
        DescriptorIter::new(&self.data[STREAM_INFO_HEADER_SIZE..self.data.len()])
    }
}

/// The body of a Program Map Table section: what stands between the table
/// syntax header and the checksum.
#[derive(Clone, Copy)]
pub struct PmtSection<'buf> {
    data: &'buf [u8],
}

impl<'buf> View for PmtSection<'buf> {
    type V = Seq<u8>;

    /// The bytes of the body.
    closed spec fn view(&self) -> Seq<u8> {
        self.data@
    }
}

impl<'buf> PmtSection<'buf> {
    #[verifier::type_invariant]
    spec fn well_formed(self) -> bool {
        self.data@.len() >= PMT_HEADER_SIZE
    }

    /// Wraps a table body, which must hold at least its four header bytes.
    pub fn new(data: &'buf [u8]) -> (section: PmtSection<'buf>)
        requires
            data@.len() >= PMT_HEADER_SIZE,
        ensures
            section@ == data@,
    {
        PmtSection { data }
    }

    pub fn reserved1(&self) -> (r: u8)
        ensures
            self@.len() >= PMT_HEADER_SIZE,
            r == self@[0] >> 5,
    {
        proof {
            use_type_invariant(self);
        }
        self.data[0] >> 5
    }

    pub fn pcr_pid(&self) -> (r: u16)
        ensures
            self@.len() >= PMT_HEADER_SIZE,
            r == pcr_pid_of(self@),
            r < 0x2000,
    {
        proof {
            use_type_invariant(self);
            lemma_field_ranges(self@[0], self@[1]);
        }
        u16::from(self.data[0] & 0b0001_1111) << 8 | u16::from(self.data[1])
    }

    pub fn reserved2(&self) -> (r: u8)
        ensures
            self@.len() >= PMT_HEADER_SIZE,
            r == self@[2] >> 4,
    {
        proof {
            use_type_invariant(self);
        }
        self.data[2] >> 4
    }

    pub fn program_info_length(&self) -> (r: u16)
        ensures
            self@.len() >= PMT_HEADER_SIZE,
            r == program_info_length_of(self@),
            r < 0x1000,
    {
        proof {
            use_type_invariant(self);
            lemma_field_ranges(self@[2], self@[3]);
        }
        u16::from(self.data[2] & 0b0000_1111) << 8 | u16::from(self.data[3])
    }

    /// Whether the body holds all of the program's descriptors, so that
    /// [`descriptors`](Self::descriptors) and [`streams`](Self::streams) can
    /// be asked for.
    pub fn is_complete(&self) -> (r: bool)
        ensures
            r == holds_program_info(self@),
    {
        proof {
            use_type_invariant(self);
        }
        PMT_HEADER_SIZE + self.program_info_length() as usize <= self.data.len()
    }

    /// Walks the descriptors of the program.
    pub fn descriptors(&self) -> (r: DescriptorIter<'buf>)
        requires
            holds_program_info(self@),
        ensures
            r@ == self@.subrange(
                PMT_HEADER_SIZE as int,
                PMT_HEADER_SIZE + program_info_length_of(self@),
            ),
    {
        let descriptor_end: usize = PMT_HEADER_SIZE + self.program_info_length() as usize;
        DescriptorIter::new(&self.data[PMT_HEADER_SIZE..descriptor_end])
    }

    /// Walks the stream entries of the table.
    pub fn streams(&self) -> (r: StreamInfoIter<'buf>)
        requires
            holds_program_info(self@),
        ensures
            r@ == self@.skip(PMT_HEADER_SIZE + program_info_length_of(self@)),
            stream_infos_of(r@) == pmt_streams(self@),
    {
        let descriptor_end: usize = PMT_HEADER_SIZE + self.program_info_length() as usize;
        StreamInfoIter::new(&self.data[descriptor_end..self.data.len()])
    }
}

/// Walks the stream entries in a run of bytes.
pub struct StreamInfoIter<'buf> {
    buf: &'buf [u8],
}

impl<'buf> View for StreamInfoIter<'buf> {
    type V = Seq<u8>;

    /// The bytes that have not been walked yet.
    closed spec fn view(&self) -> Seq<u8> {
        self.buf@
    }
}

impl<'buf> StreamInfoIter<'buf> {
    pub fn new(buf: &'buf [u8]) -> (iter: StreamInfoIter<'buf>)
        ensures
            iter@ == buf@,
    {
        StreamInfoIter { buf }
    }

    /// The next stream entry, or `None` where the bytes that are left hold no
    /// whole entry.
    pub fn next(&mut self) -> (r: Option<StreamInfo<'buf>>)
        ensures
            match stream_info_size(old(self)@) {
                Some(n) => r is Some && r->0@ == old(self)@.take(n) && final(self)@ == old(
                    self,
                )@.skip(n),
                None => r is None && final(self)@ == old(self)@,
            },
    {
        if self.buf.is_empty() {
            return None;
        }
        if let Some((stream_info, info_len)) = StreamInfo::from_bytes(self.buf) {
            self.buf = &self.buf[info_len..self.buf.len()];
            Some(stream_info)
        } else {
            None
        }
    }
}

/// The `table_id` of a Program Map Table section.
pub const PMT_TABLE_ID: u8 = 0x02;

/// The PIDs that the stream entries of a table body name, in order.
pub open spec fn stream_pids(body: Seq<u8>) -> Seq<u16> {
    Seq::new(pmt_streams(body).len(), |i: int| elementary_pid_of(pmt_streams(body)[i]))
}

/// The requests for filters that the stream entries of a table body give
/// rise to, in order: one for each entry, with its stream type, the bytes of
/// the table body and the bytes of the entry.
pub open spec fn stream_requests(body: Seq<u8>) -> Seq<RequestView> {
    Seq::new(
        pmt_streams(body).len(),
        |i: int|
            RequestView::ByStream(StreamType(pmt_streams(body)[i][0]), body, pmt_streams(body)[i]),
    )
}

/// Keeps the filter table in step with the Program Map Table of one program:
/// asks for a filter for every elementary stream that a new table announces,
/// and for the removal of those of streams that it no longer announces.
pub struct PmtProcessor<Ctx: DemuxContext> {
    pid: u16,
    program_number: u16,
    current_version: Option<u8>,
    filters_registered: FixedBitSet,
    phantom: PhantomData<Ctx>,
}

impl<Ctx: DemuxContext> PmtProcessor<Ctx> {
    /// The PIDs for which this processor has asked for a filter that it has
    /// not asked to remove since.
    pub closed spec fn registered(&self) -> Set<u16> {
        crate::registry::recorded(self.filters_registered)
    }

    pub closed spec fn spec_current_version(&self) -> Option<u8> {
        self.current_version
    }

    pub closed spec fn spec_pid(&self) -> u16 {
        self.pid
    }

    pub closed spec fn spec_program_number(&self) -> u16 {
        self.program_number
    }

    /// A processor for the table of the program `program_number`, which
    /// arrives on `pid`.
    pub fn new(pid: u16, program_number: u16) -> (processor: PmtProcessor<Ctx>)
        ensures
            processor.spec_pid() == pid,
            processor.spec_program_number() == program_number,
            processor.registered() == Set::<u16>::empty(),
            processor.spec_current_version() is None,
    {
        PmtProcessor {
            pid,
            program_number,
            current_version: None,
            filters_registered: FixedBitSet::with_capacity(PID_COUNT),
            phantom: PhantomData,
        }
    }

    /// The PID on which the table arrives.
    #[verifier::when_used_as_spec(spec_pid)]
    pub fn pid(&self) -> (r: u16)
        ensures
            r == self.spec_pid(),
    {
        self.pid
    }

    /// The program that the table describes.
    #[verifier::when_used_as_spec(spec_program_number)]
    pub fn program_number(&self) -> (r: u16)
        ensures
            r == self.spec_program_number(),
    {
        self.program_number
    }

    /// The version of the table that was handled last.
    #[verifier::when_used_as_spec(spec_current_version)]
    pub fn current_version(&self) -> (r: Option<u8>)
        ensures
            r == self.spec_current_version(),
    {
        self.current_version
    }

    /// Whether `pid` is among the [`registered`](Self::registered) PIDs.
    pub fn is_registered(&self, pid: u16) -> (r: bool)
        ensures
            r == self.registered().contains(pid),
    {
        (pid as usize) < PID_COUNT && self.filters_registered.contains(pid as usize)
    }

    /// What [`new_table`](Self::new_table) does on a table with the body
    /// `body`, announced with `table_id` and `version`.
    ///
    /// A table with another `table_id` than that of a Program Map Table, or
    /// whose body does not hold all the program descriptors that it
    /// announces, changes nothing.  Otherwise the constructor is asked for
    /// one filter for each stream entry, in order; the pending changes grow
    /// by the insertion of each of these filters at its entry's PID, in
    /// order, and then by the removal, in ascending order, of each PID that
    /// was registered and that no entry names; the PIDs that the entries name
    /// are the registered PIDs afterwards.
    pub open spec fn tabled(
        pre: Self,
        edits: Seq<FilterChange<Ctx::F>>,
        ctor: Ctx::Ctor,
        table_id: u8,
        version: u8,
        body: Seq<u8>,
        post: Self,
        post_edits: Seq<FilterChange<Ctx::F>>,
        post_ctor: Ctx::Ctor,
    ) -> bool {
        if table_id != PMT_TABLE_ID || !holds_program_info(body) {
            post == pre && post_edits == edits && post_ctor == ctor
        } else {
            &&& post.registered() == stream_pids(body).to_set()
            &&& post.spec_current_version() == Some(version)
            &&& post.spec_pid() == pre.spec_pid()
            &&& post.spec_program_number() == pre.spec_program_number()
            &&& exists|filters: Seq<Ctx::F>|
                {
                    &&& #[trigger] crate::registry::constructs_all::<Ctx::Ctor>(
                        ctor,
                        stream_requests(body),
                        post_ctor,
                        filters,
                    )
                    &&& post_edits == edits + crate::registry::insertions(
                        stream_pids(body),
                        filters,
                    ) + crate::registry::removals(
                        crate::registry::stale_pids(
                            pre.registered(),
                            stream_pids(body).to_set(),
                            PID_COUNT as int,
                        ),
                    )
                }
        }
    }

    /// Handles a new version of the table.
    pub fn new_table(
        &mut self,
        ctx: &mut Ctx,
        header: &SectionCommonHeader,
        table_syntax_header: &TableSyntaxHeader,
        sect: &PmtSection,
    )
        ensures
            Self::tabled(
                *old(self),
                old(ctx).changeset()@,
                old(ctx).constructor(),
                header.table_id,
                crate::psi::version_of(table_syntax_header@),
                sect@,
                *final(self),
                final(ctx).changeset()@,
                final(ctx).constructor(),
            ),
    {
        if PMT_TABLE_ID != header.table_id {
            return ;
        }
        if !sect.is_complete() {
            return ;
        }
        let ghost body = sect@;
        let ghost infos = pmt_streams(body);
        // the record spans every PID: it was made so, and never shrinks
        self.filters_registered.grow(PID_COUNT);
        let mut pids_seen: HashSet<u16> = HashSet::new();
        let mut streams = sect.streams();
        let ghost mut sofar = Announcement::<Ctx>::begin(*ctx, self.filters_registered);
        proof {
            crate::registry::lemma_announcement_begins(*ctx, pids_seen@, self.filters_registered);
        }
        // add or update filters for the streams of this table,
        loop
            invariant
                sofar.holds(*ctx, pids_seen@, self.filters_registered),
                sofar.edits == old(ctx).changeset()@,
                sofar.constructor == old(ctx).constructor(),
                sofar.registered == old(self).registered(),
                self.pid == old(self).pid,
                self.program_number == old(self).program_number,
                body == sect@,
                infos == pmt_streams(body),
                sofar.pids.len() <= infos.len(),
                sofar.pids == stream_pids(body).take(sofar.pids.len() as int),
                sofar.requests == stream_requests(body).take(sofar.pids.len() as int),
                infos.skip(sofar.pids.len() as int) == stream_infos_of(streams@),
            ensures
                sofar.pids.len() == infos.len(),
            decreases streams@.len(),
        {
            let stream_info = match streams.next() {
                Some(stream_info) => stream_info,
                None => {
                    break ;
                },
            };
            let pid = stream_info.elementary_pid();
            let stream_type = stream_info.stream_type();
            let ghost request = RequestView::ByStream(stream_type, body, stream_info@);
            let made = announce(
                &mut self.filters_registered,
                &mut pids_seen,
                ctx,
                pid,
                FilterRequest::ByStream(stream_type, sect, &stream_info),
                Ghost(sofar),
            );
            proof {
                let done = sofar.pids.len() as int;
                assert(infos.skip(done)[0] == stream_info@);
                assert(infos.skip(done).skip(1) =~= stream_infos_of(streams@));
                sofar = sofar.with(pid, request, made@);
            }
        }
        let ghost announced = *ctx;
        let ghost grown = self.filters_registered;
        // remove filters for the streams of the table before that this table
        // does not name,
        retire_stale(&mut self.filters_registered, &pids_seen, ctx);
        self.current_version = Some(table_syntax_header.version());
        proof {
            assert(sofar.pids =~= stream_pids(body));
            assert(sofar.requests =~= stream_requests(body));
            crate::registry::lemma_announcement_done(
                sofar,
                announced,
                pids_seen@,
                grown,
                *ctx,
                self.filters_registered,
            );
        }
    }
}

impl<Ctx: DemuxContext> WholeSectionSyntaxPayloadParser for PmtProcessor<Ctx> {
    type Context = Ctx;

    /// A section too short to hold both headers, the four bytes that a table
    /// body starts with and the checksum changes nothing; any other is
    /// handled as [`PmtProcessor::tabled`] says of its body.
    open spec fn accepts(
        pre: Self,
        pre_ctx: Ctx,
        header: SectionCommonHeader,
        table_syntax_header: Seq<u8>,
        data: Seq<u8>,
        post: Self,
        post_ctx: Ctx,
    ) -> bool {
        if data.len() < crate::psi::MIN_SECTION_SIZE + PMT_HEADER_SIZE {
            post == pre && post_ctx == pre_ctx
        } else {
            Self::tabled(
                pre,
                pre_ctx.changeset()@,
                pre_ctx.constructor(),
                header.table_id,
                crate::psi::version_of(table_syntax_header),
                crate::psi::section_body(data),
                post,
                post_ctx.changeset()@,
                post_ctx.constructor(),
            )
        }
    }

    fn section(
        &mut self,
        ctx: &mut Ctx,
        header: &SectionCommonHeader,
        table_syntax_header: &TableSyntaxHeader,
        data: &[u8],
    ) {
        if data.len() < crate::psi::MIN_SECTION_SIZE + PMT_HEADER_SIZE {
            return ;
        }
        let start = SectionCommonHeader::SIZE + TableSyntaxHeader::SIZE;
        let end = data.len() - crate::psi::CRC_SIZE;  // remove CRC bytes
        self.new_table(ctx, header, table_syntax_header, &PmtSection::new(&data[start..end]));
    }
}

/// The filter for the PID of a Program Map Table: reassembles the sections
/// of the table and hands each new version of it to a [`PmtProcessor`].
pub struct PmtPacketFilter<Ctx: DemuxContext> {
    pmt_section_packet_consumer: SectionPacketConsumer<PmtProcessor<Ctx>>,
}

impl<Ctx: DemuxContext> PmtPacketFilter<Ctx> {
    /// Where the reassembly of sections stands.
    pub closed spec fn assembly(&self) -> crate::psi::Assembly {
        self.pmt_section_packet_consumer@
    }

    /// The processor that the tables are handed to.
    pub closed spec fn processor(&self) -> PmtProcessor<Ctx> {
        self.pmt_section_packet_consumer.parser()
    }

    pub fn new(pid: u16, program_number: u16) -> (filter: PmtPacketFilter<Ctx>)
        ensures
            filter.assembly() == crate::psi::idle(None),
            filter.processor().spec_pid() == pid,
            filter.processor().spec_program_number() == program_number,
            filter.processor().registered() == Set::<u16>::empty(),
            filter.processor().spec_current_version() is None,
    {
        let pmt_proc = PmtProcessor::new(pid, program_number);
        PmtPacketFilter { pmt_section_packet_consumer: SectionPacketConsumer::new(pmt_proc) }
    }
}

impl<Ctx: DemuxContext> PacketFilter for PmtPacketFilter<Ctx> {
    type Ctx = Ctx;

    /// The reassembly moves as [`fed`](crate::psi::fed) says, and the
    /// processor is handed the sections that the packet completes, one after
    /// the other.
    open spec fn consumes(
        pre: Self,
        edits: Seq<FilterChange<Ctx::F>>,
        ctor: Ctx::Ctor,
        pk: Seq<u8>,
        post: Self,
        post_edits: Seq<FilterChange<Ctx::F>>,
        post_ctor: Ctx::Ctor,
    ) -> bool {
        &&& post.assembly() == crate::psi::fed(pre.assembly(), pk).state
        &&& exists|pre_ctx: Ctx, post_ctx: Ctx|
            {
                &&& pre_ctx.changeset()@ == edits
                &&& pre_ctx.constructor() == ctor
                &&& post_ctx.changeset()@ == post_edits
                &&& post_ctx.constructor() == post_ctor
                &&& #[trigger] crate::psi::delivers::<PmtProcessor<Ctx>>(
                    pre.processor(),
                    pre_ctx,
                    crate::psi::fed(pre.assembly(), pk).delivered,
                    post.processor(),
                    post_ctx,
                )
            }
    }

    fn consume(&mut self, ctx: &mut Ctx, pk: Packet) {
        self.pmt_section_packet_consumer.consume(ctx, pk);
    }
}

/// A table body without program descriptors that holds one stream entry
/// without descriptors names one elementary stream: a table with such a body
/// asks for exactly one insertion, at the entry's PID.
pub proof fn lemma_single_stream(body: Seq<u8>)
    requires
        body.len() == PMT_HEADER_SIZE + STREAM_INFO_HEADER_SIZE,
        program_info_length_of(body) == 0,
        es_info_length_of(body.skip(PMT_HEADER_SIZE as int)) == 0,
    ensures
        holds_program_info(body),
        pmt_streams(body) == seq![body.skip(PMT_HEADER_SIZE as int)],
        stream_pids(body) == seq![elementary_pid_of(body.skip(PMT_HEADER_SIZE as int))],
        stream_requests(body).len() == 1,
{
    let entry = body.skip(PMT_HEADER_SIZE as int);
    assert(entry.take(STREAM_INFO_HEADER_SIZE as int) =~= entry);
    assert(stream_infos_of(entry) =~= seq![entry]) by {
        reveal_with_fuel(stream_infos_of, 2);
    }
}

/// What a new table does to the registered PIDs and to the pending changes.
///
/// Where a processor with the registered PIDs `S` handles a table whose body
/// holds all of its program descriptors and that names the PIDs `S'`:
/// afterwards `S'` are the registered PIDs; the changes that waited still
/// wait, and after them one insertion for each stream entry of the table, at
/// the entry's PID, and then one removal for each PID of `S` that is not in
/// `S'`, and nothing else.
pub proof fn lemma_table_diff<Ctx: DemuxContext>(
    pre: PmtProcessor<Ctx>,
    edits: Seq<FilterChange<Ctx::F>>,
    ctor: Ctx::Ctor,
    version: u8,
    body: Seq<u8>,
    post: PmtProcessor<Ctx>,
    post_edits: Seq<FilterChange<Ctx::F>>,
    post_ctor: Ctx::Ctor,
)
    requires
        holds_program_info(body),
        PmtProcessor::<Ctx>::tabled(
            pre,
            edits,
            ctor,
            PMT_TABLE_ID,
            version,
            body,
            post,
            post_edits,
            post_ctor,
        ),
    ensures
        post.registered() == stream_pids(body).to_set(),
        pre.registered().difference(post.registered()).finite(),
        post_edits.len() == edits.len() + pmt_streams(body).len() + pre.registered().difference(
            post.registered(),
        ).len(),
        post_edits.take(edits.len() as int) == edits,
        forall|i: int|
            0 <= i < pmt_streams(body).len() ==> (#[trigger] post_edits[edits.len() + i]) is Insert
                && post_edits[edits.len() + i].spec_pid() == stream_pids(body)[i],
        forall|i: int|
            edits.len() + pmt_streams(body).len() <= i < post_edits.len() ==> (
            #[trigger] post_edits[i]) is Remove && pre.registered().contains(
                post_edits[i].spec_pid(),
            ) && !post.registered().contains(post_edits[i].spec_pid()),
        stream_pids(body).no_duplicates() ==> post.registered().len() == pmt_streams(body).len(),
{
    let pids = stream_pids(body);
    let filters = choose|filters: Seq<Ctx::F>|
        {
            &&& #[trigger] crate::registry::constructs_all::<Ctx::Ctor>(
                ctor,
                stream_requests(body),
                post_ctor,
                filters,
            )
            &&& post_edits == edits + crate::registry::insertions(pids, filters)
                + crate::registry::removals(
                crate::registry::stale_pids(pre.registered(), pids.to_set(), PID_COUNT as int),
            )
        };
    crate::registry::lemma_constructs_all_len::<Ctx::Ctor>(
        ctor,
        stream_requests(body),
        post_ctor,
        filters,
    );
    crate::registry::lemma_table_changes(pids, filters, pre.registered());
    let changes = crate::registry::insertions(pids, filters) + crate::registry::removals::<Ctx::F>(
        crate::registry::stale_pids(pre.registered(), pids.to_set(), PID_COUNT as int),
    );
    assert(post_edits =~= edits + changes);
}

/// A new table whose body holds no program descriptors and one stream entry
/// without descriptors asks for exactly one insertion, at the entry's PID,
/// and after it for the removal of the PIDs that were registered, but for
/// that PID.
pub proof fn lemma_single_stream_one_insertion<Ctx: DemuxContext>(
    pre: PmtProcessor<Ctx>,
    edits: Seq<FilterChange<Ctx::F>>,
    ctor: Ctx::Ctor,
    version: u8,
    body: Seq<u8>,
    post: PmtProcessor<Ctx>,
    post_edits: Seq<FilterChange<Ctx::F>>,
    post_ctor: Ctx::Ctor,
)
    requires
        body.len() == PMT_HEADER_SIZE + STREAM_INFO_HEADER_SIZE,
        program_info_length_of(body) == 0,
        es_info_length_of(body.skip(PMT_HEADER_SIZE as int)) == 0,
        PmtProcessor::<Ctx>::tabled(
            pre,
            edits,
            ctor,
            PMT_TABLE_ID,
            version,
            body,
            post,
            post_edits,
            post_ctor,
        ),
    ensures
        post_edits.len() > edits.len(),
        post_edits.take(edits.len() as int) == edits,
        post_edits[edits.len() as int] is Insert,
        post_edits[edits.len() as int].spec_pid() == elementary_pid_of(
            body.skip(PMT_HEADER_SIZE as int),
        ),
        forall|i: int| edits.len() < i < post_edits.len() ==> (#[trigger] post_edits[i]) is Remove,
        post.registered() == set![elementary_pid_of(body.skip(PMT_HEADER_SIZE as int))],
{
    lemma_single_stream(body);
    let pids = stream_pids(body);
    let filters = choose|filters: Seq<Ctx::F>|
        {
            &&& #[trigger] crate::registry::constructs_all::<Ctx::Ctor>(
                ctor,
                stream_requests(body),
                post_ctor,
                filters,
            )
            &&& post_edits == edits + crate::registry::insertions(pids, filters)
                + crate::registry::removals(
                crate::registry::stale_pids(pre.registered(), pids.to_set(), PID_COUNT as int),
            )
        };
    crate::registry::lemma_constructs_all_len::<Ctx::Ctor>(
        ctor,
        stream_requests(body),
        post_ctor,
        filters,
    );
    assert(pids.to_set() =~= set![pids[0]]) by {
        Seq::<u16>::empty().lemma_push_to_set_commute(pids[0]);
    }
}

} // verus!
