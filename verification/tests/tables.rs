use mpeg2ts_demux::context::{
    DemuxContext, FilterRequest, NullPacketFilter, PacketFilter, StreamConstructor, UnhandledPid,
};
use mpeg2ts_demux::descriptor::DescriptorIter;
use mpeg2ts_demux::filters::{FilterChange, FilterChangeset};
use mpeg2ts_demux::packet::Packet;
use mpeg2ts_demux::pat::{PatProcessor, PatSection, ProgramDescriptor};
use mpeg2ts_demux::pmt::{PmtProcessor, PmtSection, StreamInfo, StreamInfoIter};
use mpeg2ts_demux::psi::{SectionCommonHeader, TableSyntaxHeader, WholeSectionSyntaxPayloadParser};
use mpeg2ts_demux::stream_type::StreamType;

/// A filter that only knows what it was made for.
#[derive(Debug, PartialEq, Eq, Clone)]
pub enum Made {
    ByPid(u16),
    ByStream(StreamType, Vec<u8>, Vec<u8>),
    Pmt(u16, u16),
}

impl PacketFilter for Made {
    type Ctx = Context;

    fn consume(&mut self, _ctx: &mut Context, _pk: Packet) {}
}

pub struct Constructor;

impl StreamConstructor for Constructor {
    type F = Made;

    fn construct(&mut self, req: FilterRequest) -> Made {
        match req {
            FilterRequest::ByPid(pid) => Made::ByPid(pid),
            FilterRequest::ByStream(stream_type, section, info) => {
                let mut entry = vec![
                    stream_type.code(),
                    info.reserved1() << 5 | (info.elementary_pid() >> 8) as u8,
                    info.elementary_pid() as u8,
                    info.reserved2() << 4 | (info.es_info_length() >> 8) as u8,
                    info.es_info_length() as u8,
                ];
                for d in info.descriptors().collect() {
                    entry.push(d.tag());
                    entry.push(d.payload().len() as u8);
                    entry.extend_from_slice(d.payload());
                }
                Made::ByStream(
                    stream_type,
                    vec![(section.pcr_pid() >> 8) as u8, section.pcr_pid() as u8],
                    entry,
                )
            }
            FilterRequest::Pmt {
                pid,
                program_number,
            } => Made::Pmt(pid, program_number),
        }
    }
}

pub struct Context {
    changeset: FilterChangeset<Made>,
    constructor: Constructor,
}

impl Context {
    fn new() -> Context {
        Context {
            changeset: FilterChangeset::new(),
            constructor: Constructor,
        }
    }

    /// What waits in the changeset: for an insertion the PID and the filter,
    /// for a removal the PID.
    fn take(&mut self) -> Vec<(u16, Option<Made>)> {
        let changes = std::mem::replace(&mut self.changeset, FilterChangeset::new());
        changes
            .into_vec()
            .into_iter()
            .map(|c| match c {
                FilterChange::Insert(pid, made) => (pid, Some(made)),
                FilterChange::Remove(pid) => (pid, None),
            })
            .collect()
    }
}

impl DemuxContext for Context {
    type F = Made;
    type Ctor = Constructor;

    fn filter_changeset(&mut self) -> &mut FilterChangeset<Made> {
        &mut self.changeset
    }

    fn filter_constructor(&mut self) -> &mut Constructor {
        &mut self.constructor
    }
}

/// A section around `body`, with a checksum that nobody looks at.
fn section(table_id: u8, version: u8, body: &[u8]) -> Vec<u8> {
    let length = 5 + body.len() + 4;
    let mut section = vec![
        table_id,
        0b1011_0000 | (length >> 8) as u8,
        length as u8,
        0,
        1,
        0b1100_0001 | (version << 1),
        0,
        0,
    ];
    section.extend_from_slice(body);
    section.extend_from_slice(&[0, 0, 0, 0]);
    section
}

fn pat_body(programs: &[(u16, u16)]) -> Vec<u8> {
    let mut body = Vec::new();
    for &(program_number, pid) in programs {
        body.extend_from_slice(&[
            (program_number >> 8) as u8,
            program_number as u8,
            0xe0 | (pid >> 8) as u8,
            pid as u8,
        ]);
    }
    body
}

fn stream_entry(stream_type: u8, pid: u16, descriptors: &[u8]) -> Vec<u8> {
    let mut entry = vec![
        stream_type,
        0xe0 | (pid >> 8) as u8,
        pid as u8,
        0xf0 | (descriptors.len() >> 8) as u8,
        descriptors.len() as u8,
    ];
    entry.extend_from_slice(descriptors);
    entry
}

fn pmt_body(pcr_pid: u16, program_info: &[u8], entries: &[Vec<u8>]) -> Vec<u8> {
    let mut body = vec![
        0xe0 | (pcr_pid >> 8) as u8,
        pcr_pid as u8,
        0xf0 | (program_info.len() >> 8) as u8,
        program_info.len() as u8,
    ];
    body.extend_from_slice(program_info);
    for e in entries {
        body.extend_from_slice(e);
    }
    body
}

fn hand<P: WholeSectionSyntaxPayloadParser<Context = Context>>(
    processor: &mut P,
    ctx: &mut Context,
    data: &[u8],
) {
    let header = SectionCommonHeader::new(&data[..SectionCommonHeader::SIZE]);
    let table_syntax_header = TableSyntaxHeader::new(&data[SectionCommonHeader::SIZE..]);
    processor.section(ctx, &header, &table_syntax_header, data);
}

#[test]
fn program_descriptor_fields() {
    let d = ProgramDescriptor::from_bytes(&[0x12, 0x34, 0xff, 0xfe]);
    assert_eq!(d.program_number(), 0x1234);
    assert_eq!(d.pid(), 0x1ffe);
    let d = ProgramDescriptor::from_bytes(&[0, 1, 0, 101, 9, 9]);
    assert_eq!(d.program_number(), 1);
    assert_eq!(d.pid(), 101);
}

#[test]
fn programs_of_a_table() {
    let body = pat_body(&[(1, 101), (2, 0x1fff), (0xffff, 0)]);
    let mut programs = PatSection::new(&body).programs();
    let mut got = Vec::new();
    while let Some(d) = programs.next() {
        got.push((d.program_number(), d.pid()));
    }
    assert_eq!(got, vec![(1, 101), (2, 0x1fff), (0xffff, 0)]);
    assert!(programs.next().is_none());
}

#[test]
fn bytes_after_the_last_whole_program_are_ignored() {
    let mut body = pat_body(&[(1, 101)]);
    body.extend_from_slice(&[0, 2, 0xe0]);
    let mut programs = PatSection::new(&body).programs();
    assert_eq!(programs.next().map(|d| d.pid()), Some(101));
    assert!(programs.next().is_none());
    assert!(PatSection::new(&[]).programs().next().is_none());
}

#[test]
fn stream_info_fields() {
    let data = [0x1b, 0b1010_0001, 0x23, 0b0101_0000, 3, 7, 1, 9, 0xaa];
    let (info, size) = StreamInfo::from_bytes(&data).unwrap();
    assert_eq!(size, 8);
    assert_eq!(info.stream_type(), StreamType(0x1b));
    assert_eq!(info.reserved1(), 0b101);
    assert_eq!(info.elementary_pid(), 0x123);
    assert_eq!(info.reserved2(), 0b0101);
    assert_eq!(info.es_info_length(), 3);
    let descriptors = info.descriptors().collect();
    assert_eq!(descriptors.len(), 1);
    assert_eq!(descriptors[0].tag(), 7);
    assert_eq!(descriptors[0].payload(), &[9]);
}

#[test]
fn stream_info_too_short() {
    assert!(StreamInfo::from_bytes(&[]).is_none());
    assert!(StreamInfo::from_bytes(&[0x1b, 0xe0, 1, 0xf0]).is_none());
    // es_info_length 2 with one byte left
    assert!(StreamInfo::from_bytes(&[0x1b, 0xe0, 1, 0xf0, 2, 0]).is_none());
    // and with both
    assert!(StreamInfo::from_bytes(&[0x1b, 0xe0, 1, 0xf0, 2, 0, 0]).is_some());
    assert!(StreamInfo::from_bytes(&[0x1b, 0xe0, 1, 0xf0, 0]).is_some());
}

#[test]
fn stream_info_iter_walks_the_entries() {
    let mut bytes = stream_entry(0x1b, 201, &[5, 0]);
    bytes.extend_from_slice(&stream_entry(0x0f, 202, &[]));
    bytes.extend_from_slice(&stream_entry(0x06, 203, &[1, 1, 0]));
    let mut iter = StreamInfoIter::new(&bytes);
    let mut got = Vec::new();
    while let Some(info) = iter.next() {
        got.push((info.stream_type().code(), info.elementary_pid(), info.es_info_length()));
    }
    assert_eq!(got, vec![(0x1b, 201, 2), (0x0f, 202, 0), (0x06, 203, 3)]);
}

#[test]
fn stream_info_iter_stops_at_a_cut_entry() {
    let mut bytes = stream_entry(0x1b, 201, &[]);
    bytes.extend_from_slice(&stream_entry(0x0f, 202, &[1, 2, 3, 4])[..7]);
    let mut iter = StreamInfoIter::new(&bytes);
    assert_eq!(iter.next().map(|i| i.elementary_pid()), Some(201));
    assert!(iter.next().is_none());
    assert!(iter.next().is_none());
    let mut bytes = stream_entry(0x1b, 201, &[]);
    bytes.extend_from_slice(&[0x0f, 0xe0, 202, 0xf0]);
    let mut iter = StreamInfoIter::new(&bytes);
    assert!(iter.next().is_some());
    assert!(iter.next().is_none());
}

#[test]
fn pmt_section_fields() {
    let body = pmt_body(0x1234 & 0x1fff, &[9, 2, 1, 2], &[stream_entry(0x1b, 201, &[])]);
    let section = PmtSection::new(&body);
    assert_eq!(section.reserved1(), 0b111);
    assert_eq!(section.pcr_pid(), 0x1234);
    assert_eq!(section.reserved2(), 0b1111);
    assert_eq!(section.program_info_length(), 4);
    assert!(section.is_complete());
    let descriptors = section.descriptors().collect();
    assert_eq!(descriptors.len(), 1);
    assert_eq!(descriptors[0].tag(), 9);
    assert_eq!(descriptors[0].payload(), &[1, 2]);
    let mut streams = section.streams();
    assert_eq!(streams.next().map(|i| i.elementary_pid()), Some(201));
    assert!(streams.next().is_none());
}

#[test]
fn pmt_section_cut_in_its_program_info() {
    let section = PmtSection::new(&[0xe0, 1, 0xf0, 3, 0, 0]);
    assert_eq!(section.program_info_length(), 3);
    assert!(!section.is_complete());
    let section = PmtSection::new(&[0xe0, 1, 0xf0, 3, 0, 0, 0]);
    assert!(section.is_complete());
    assert!(section.streams().next().is_none());
}

#[test]
fn descriptors_are_walked() {
    let bytes = [1, 0, 2, 3, 7, 8, 9, 5, 1, 0xaa];
    let mut iter = DescriptorIter::new(&bytes);
    let d = iter.next().unwrap();
    assert_eq!((d.tag(), d.payload().len()), (1, 0));
    let d = iter.next().unwrap();
    assert_eq!((d.tag(), d.payload()), (2, &[7u8, 8, 9][..]));
    let d = iter.next().unwrap();
    assert_eq!((d.tag(), d.payload()), (5, &[0xaau8][..]));
    assert!(iter.next().is_none());
    assert_eq!(DescriptorIter::new(&bytes).collect().len(), 3);
}

#[test]
fn descriptor_walk_stops_at_a_cut_descriptor() {
    let bytes = [1, 1, 0xaa, 2, 3, 7, 8];
    let all = DescriptorIter::new(&bytes).collect();
    assert_eq!(all.len(), 1);
    assert_eq!(all[0].tag(), 1);
    assert!(DescriptorIter::new(&[7]).next().is_none());
    assert!(DescriptorIter::new(&[]).next().is_none());
}

#[test]
fn stream_type_is_its_code() {
    assert_eq!(StreamType::from(0x1b), StreamType(0x1b));
    assert_eq!(StreamType::from(0x1b).code(), 0x1b);
    assert_ne!(StreamType(0x0f), StreamType(0x1b));
}

#[test]
fn new_processors_have_registered_nothing() {
    let pat: PatProcessor<Context> = PatProcessor::new();
    assert_eq!(pat.current_version(), None);
    let pmt: PmtProcessor<Context> = PmtProcessor::new(101, 7);
    assert_eq!(pmt.current_version(), None);
    assert_eq!(pmt.pid(), 101);
    assert_eq!(pmt.program_number(), 7);
    for pid in [0u16, 1, 101, 8190, 8191, 8192, u16::MAX] {
        assert!(!pat.is_registered(pid));
        assert!(!pmt.is_registered(pid));
    }
}

#[test]
fn pat_asks_for_one_filter_per_program() {
    let mut ctx = Context::new();
    let mut processor = PatProcessor::new();
    hand(&mut processor, &mut ctx, &section(0, 4, &pat_body(&[(1, 101), (2, 102)])));
    assert_eq!(
        ctx.take(),
        vec![
            (101, Some(Made::Pmt(101, 1))),
            (102, Some(Made::Pmt(102, 2)))
        ]
    );
    assert!(processor.is_registered(101));
    assert!(processor.is_registered(102));
    assert!(!processor.is_registered(100));
    assert!(!processor.is_registered(103));
    assert_eq!(processor.current_version(), Some(4));
}

#[test]
fn pat_diff_inserts_all_and_removes_the_missing() {
    let mut ctx = Context::new();
    let mut processor = PatProcessor::new();
    hand(&mut processor, &mut ctx, &section(0, 0, &pat_body(&[(1, 101), (2, 102)])));
    ctx.take();
    hand(&mut processor, &mut ctx, &section(0, 1, &pat_body(&[(3, 103), (2, 102)])));
    // one insertion for each of the two programs, also for the one that was
    // there before, then one removal
    assert_eq!(
        ctx.take(),
        vec![
            (103, Some(Made::Pmt(103, 3))),
            (102, Some(Made::Pmt(102, 2))),
            (101, None)
        ]
    );
    assert!(!processor.is_registered(101));
    assert!(processor.is_registered(102));
    assert!(processor.is_registered(103));
    assert_eq!(processor.current_version(), Some(1));
}

#[test]
fn pat_changes_come_after_those_that_wait() {
    let mut ctx = Context::new();
    ctx.changeset.remove(55);
    let mut processor = PatProcessor::new();
    hand(&mut processor, &mut ctx, &section(0, 0, &pat_body(&[(1, 101)])));
    assert_eq!(ctx.take(), vec![(55, None), (101, Some(Made::Pmt(101, 1)))]);
}

#[test]
fn empty_pat_only_removes() {
    let mut ctx = Context::new();
    let mut processor = PatProcessor::new();
    hand(&mut processor, &mut ctx, &section(0, 0, &pat_body(&[(1, 300), (2, 101), (3, 200)])));
    ctx.take();
    hand(&mut processor, &mut ctx, &section(0, 1, &[]));
    assert_eq!(ctx.take(), vec![(101, None), (200, None), (300, None)]);
    for pid in [101u16, 200, 300] {
        assert!(!processor.is_registered(pid));
    }
    // and a second empty table asks for nothing
    hand(&mut processor, &mut ctx, &section(0, 2, &[]));
    assert_eq!(ctx.take(), vec![]);
}

#[test]
fn pat_with_the_same_pid_twice() {
    let mut ctx = Context::new();
    let mut processor = PatProcessor::new();
    hand(&mut processor, &mut ctx, &section(0, 0, &pat_body(&[(1, 101), (2, 101)])));
    assert_eq!(
        ctx.take(),
        vec![
            (101, Some(Made::Pmt(101, 1))),
            (101, Some(Made::Pmt(101, 2)))
        ]
    );
    hand(&mut processor, &mut ctx, &section(0, 1, &[]));
    assert_eq!(ctx.take(), vec![(101, None)]);
}

#[test]
fn highest_and_lowest_pid_are_removed_too() {
    let mut ctx = Context::new();
    let mut processor = PatProcessor::new();
    hand(&mut processor, &mut ctx, &section(0, 0, &pat_body(&[(1, 8191), (2, 0)])));
    assert!(processor.is_registered(8191));
    assert!(processor.is_registered(0));
    ctx.take();
    hand(&mut processor, &mut ctx, &section(0, 1, &[]));
    assert_eq!(ctx.take(), vec![(0, None), (8191, None)]);
    assert!(!processor.is_registered(8191));
}

#[test]
fn pat_with_another_table_id_is_discarded() {
    let mut ctx = Context::new();
    let mut processor = PatProcessor::new();
    hand(&mut processor, &mut ctx, &section(0, 0, &pat_body(&[(1, 101)])));
    ctx.take();
    hand(&mut processor, &mut ctx, &section(2, 1, &pat_body(&[(2, 102)])));
    assert_eq!(ctx.take(), vec![]);
    assert!(processor.is_registered(101));
    assert!(!processor.is_registered(102));
    assert_eq!(processor.current_version(), Some(0));
}

#[test]
fn section_too_short_is_discarded() {
    let mut ctx = Context::new();
    let mut pat = PatProcessor::new();
    let mut pmt = PmtProcessor::new(101, 1);
    let data = [0u8, 0xb0, 8, 0, 1, 0xc1, 0, 0, 0, 0, 0];
    hand(&mut pat, &mut ctx, &data);
    let data = [2u8, 0xb0, 12, 0, 1, 0xc1, 0, 0, 0xe0, 1, 0xf0, 0, 0, 0, 0];
    hand(&mut pmt, &mut ctx, &data);
    assert_eq!(ctx.take(), vec![]);
    assert_eq!(pat.current_version(), None);
    assert_eq!(pmt.current_version(), None);
}

#[test]
fn pmt_asks_for_one_filter_per_stream() {
    let mut ctx = Context::new();
    let mut processor = PmtProcessor::new(101, 1);
    let body = pmt_body(
        123,
        &[9, 1, 0],
        &[
            stream_entry(0x1b, 201, &[5, 2, 1, 2]),
            stream_entry(0x0f, 202, &[]),
        ],
    );
    hand(&mut processor, &mut ctx, &section(2, 3, &body));
    assert_eq!(
        ctx.take(),
        vec![
            (
                201,
                Some(Made::ByStream(
                    StreamType(0x1b),
                    vec![0, 123],
                    stream_entry(0x1b, 201, &[5, 2, 1, 2])
                ))
            ),
            (
                202,
                Some(Made::ByStream(
                    StreamType(0x0f),
                    vec![0, 123],
                    stream_entry(0x0f, 202, &[])
                ))
            )
        ]
    );
    assert!(processor.is_registered(201));
    assert!(processor.is_registered(202));
    assert_eq!(processor.current_version(), Some(3));
}

#[test]
fn pmt_with_one_bare_stream_asks_for_one_insertion() {
    let mut ctx = Context::new();
    let mut processor = PmtProcessor::new(101, 1);
    let body = pmt_body(123, &[], &[stream_entry(0x1b, 201, &[])]);
    assert_eq!(body.len(), 9);
    hand(&mut processor, &mut ctx, &section(2, 0, &body));
    let changes = ctx.take();
    assert_eq!(changes.len(), 1);
    assert_eq!(changes[0].0, 201);
    assert!(changes[0].1.is_some());
}

#[test]
fn pmt_diff_removes_the_missing() {
    let mut ctx = Context::new();
    let mut processor = PmtProcessor::new(101, 1);
    let body = pmt_body(123, &[], &[stream_entry(0x1b, 201, &[]), stream_entry(0x0f, 202, &[])]);
    hand(&mut processor, &mut ctx, &section(2, 0, &body));
    ctx.take();
    let body = pmt_body(123, &[], &[stream_entry(0x0f, 202, &[])]);
    hand(&mut processor, &mut ctx, &section(2, 1, &body));
    let changes = ctx.take();
    assert_eq!(changes.len(), 2);
    assert_eq!(changes[0].0, 202);
    assert!(changes[0].1.is_some());
    assert_eq!(changes[1], (201, None));
    assert!(!processor.is_registered(201));
    assert!(processor.is_registered(202));
}

#[test]
fn pmt_cut_in_its_program_info_is_discarded() {
    let mut ctx = Context::new();
    let mut processor = PmtProcessor::new(101, 1);
    let body = pmt_body(123, &[], &[stream_entry(0x1b, 201, &[])]);
    hand(&mut processor, &mut ctx, &section(2, 0, &body));
    ctx.take();
    // program_info_length 10, nine bytes follow
    let mut body = pmt_body(123, &[0; 10], &[]);
    body.pop();
    hand(&mut processor, &mut ctx, &section(2, 1, &body));
    assert_eq!(ctx.take(), vec![]);
    assert!(processor.is_registered(201));
    assert_eq!(processor.current_version(), Some(0));
}

#[test]
fn pmt_cut_in_a_stream_entry_keeps_the_entries_before() {
    let mut ctx = Context::new();
    let mut processor = PmtProcessor::new(101, 1);
    let mut body = pmt_body(
        123,
        &[],
        &[stream_entry(0x1b, 201, &[]), stream_entry(0x0f, 202, &[1, 2, 0, 0])],
    );
    body.pop();
    hand(&mut processor, &mut ctx, &section(2, 5, &body));
    let changes = ctx.take();
    assert_eq!(changes.len(), 1);
    assert_eq!(changes[0].0, 201);
    assert!(processor.is_registered(201));
    assert!(!processor.is_registered(202));
    assert_eq!(processor.current_version(), Some(5));
}

#[test]
fn pmt_with_another_table_id_is_discarded() {
    let mut ctx = Context::new();
    let mut processor = PmtProcessor::new(101, 1);
    let body = pmt_body(123, &[], &[stream_entry(0x1b, 201, &[])]);
    hand(&mut processor, &mut ctx, &section(0, 0, &body));
    assert_eq!(ctx.take(), vec![]);
    assert!(!processor.is_registered(201));
    assert_eq!(processor.current_version(), None);
}

#[test]
fn unhandled_pid_remembers_its_first_packet() {
    let mut ctx = Context::new();
    let mut pk = vec![0x47, 0x01, 0x00, 0x10];
    pk.resize(188, 0);
    let mut filter: UnhandledPid<Context> = UnhandledPid::new();
    assert!(!filter.pid_seen());
    filter.consume(&mut ctx, Packet::new(&pk));
    assert!(filter.pid_seen());
    filter.consume(&mut ctx, Packet::new(&pk));
    assert!(filter.pid_seen());
    assert!(ctx.changeset.is_empty());
}

#[test]
fn null_filter_drops_packets() {
    let mut ctx = Context::new();
    let mut pk = vec![0x47, 0x01, 0x00, 0x10];
    pk.resize(188, 0);
    let mut filter: NullPacketFilter<Context> = NullPacketFilter::new();
    filter.consume(&mut ctx, Packet::new(&pk));
    assert!(ctx.changeset.is_empty());
}
