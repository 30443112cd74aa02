//! Program Specific Information: the headers of a section, its checksum, and
//! the reassembly of sections from the packets that carry them.

use crate::packet::{payload_of, starts_unit, Packet};
use vstd::prelude::*;

verus! {

/// The polynomial of the checksum that closes every section.
pub const CRC_POLYNOMIAL: u32 = 0x04C1_1DB7;

/// The checksum register before the first byte.
pub const CRC_INITIAL: u32 = 0xFFFF_FFFF;

/// The checksum register after one more message bit was shifted through it.
pub open spec fn crc_shifted(crc: u32) -> u32 {
    if crc & 0x8000_0000 != 0 {
        (crc << 1) ^ CRC_POLYNOMIAL
    } else {
        crc << 1
    }
}

/// The checksum register after `n` shifts.
pub open spec fn crc_shifted_by(crc: u32, n: nat) -> u32
    decreases n,
{
    if n == 0 {
        crc
    } else {
        crc_shifted(crc_shifted_by(crc, (n - 1) as nat))
    }
}

/// The checksum register after one more message byte, highest bit first.
pub open spec fn crc_with_byte(crc: u32, byte: u8) -> u32 {
    crc_shifted_by(crc ^ ((byte as u32) << 24), 8)
}

/// The MPEG-2 CRC-32 of `bytes`: polynomial `0x04C11DB7`, register preset to
/// all ones, bits taken highest first, nothing inverted at the end.
pub open spec fn crc_of(bytes: Seq<u8>) -> u32
    decreases bytes.len(),
{
    if bytes.len() == 0 {
        CRC_INITIAL
    } else {
        crc_with_byte(crc_of(bytes.drop_last()), bytes.last())
    }
}

/// The 32-bit number that four bytes spell, highest byte first.
pub open spec fn be_u32(b0: u8, b1: u8, b2: u8, b3: u8) -> u32 {
    ((b0 as u32) << 24) | ((b1 as u32) << 16) | ((b2 as u32) << 8) | (b3 as u32)
}

/// Whether the last four bytes of `section` spell the checksum of the bytes
/// before them.
pub open spec fn crc_matches(section: Seq<u8>) -> bool {
    let n = section.len() as int;
    n >= 4 && crc_of(section.take(n - 4)) == be_u32(
        section[n - 4],
        section[n - 3],
        section[n - 2],
        section[n - 1],
    )
}

fn crc_update(crc: u32, byte: u8) -> (r: u32)
    ensures
        r == crc_with_byte(crc, byte),
{
    let mut r: u32 = crc ^ ((byte as u32) << 24);
    let mut k: u8 = 0;
    while k < 8
        invariant
            k <= 8,
            r == crc_shifted_by(crc ^ ((byte as u32) << 24), k as nat),
        decreases 8 - k,
    {
        r = if r & 0x8000_0000 != 0 {
            (r << 1) ^ CRC_POLYNOMIAL
        } else {
            r << 1
        };
        k += 1;
    }
    r
}

/// Computes the MPEG-2 CRC-32 of `data`.
pub fn crc32(data: &[u8]) -> (crc: u32)
    ensures
        crc == crc_of(data@),
{
    let mut crc: u32 = CRC_INITIAL;
    let mut i: usize = 0;
    while i < data.len()
        invariant
            i <= data@.len(),
            crc == crc_of(data@.take(i as int)),
        decreases data@.len() - i,
    {
        proof {
            assert(data@.take(i + 1).drop_last() =~= data@.take(i as int));
        }
        crc = crc_update(crc, data[i]);
        i += 1;
    }
    proof {
        assert(data@.take(data@.len() as int) =~= data@);
    }
    crc
}

/// Tests the checksum that closes `section`.
pub fn check_crc(section: &[u8]) -> (ok: bool)
    ensures
        ok == crc_matches(section@),
{
    let n = section.len();
    if n < 4 {
        return false;
    }
    let found = crc32(&section[0..n - 4]);
    let stored: u32 = ((section[n - 4] as u32) << 24) | ((section[n - 3] as u32) << 16) | ((
    section[n - 2] as u32) << 8) | (section[n - 1] as u32);
    found == stored
}

/// The header that every section starts with.
#[derive(Clone, Copy, Debug, PartialEq, Eq, Structural)]
pub struct SectionCommonHeader {
    pub table_id: u8,
    pub section_syntax_indicator: bool,
    pub private_indicator: bool,
    /// How many bytes of the section follow this header.
    pub section_length: usize,
}

/// The number of bytes after the common header that its bytes 1 and 2 announce.
pub open spec fn section_length_of(bytes: Seq<u8>) -> u16 {
    (((bytes[1] & 0b0000_1111) as u16) << 8) | (bytes[2] as u16)
}

/// The common header that the first three bytes of `bytes` spell.
pub open spec fn common_header_of(bytes: Seq<u8>) -> SectionCommonHeader {
    SectionCommonHeader {
        table_id: bytes[0],
        section_syntax_indicator: bytes[1] & 0b1000_0000 != 0,
        private_indicator: bytes[1] & 0b0100_0000 != 0,
        section_length: section_length_of(bytes) as usize,
    }
}

/// A section length fits in 12 bits.
pub proof fn lemma_section_length_in_range(bytes: Seq<u8>)
    ensures
        section_length_of(bytes) < 0x1000,
{
    let hi = bytes[1];
    let lo = bytes[2];
    assert(((((hi & 0b0000_1111) as u16) << 8) | (lo as u16)) < 0x1000) by (bit_vector);
}

impl SectionCommonHeader {
    pub const SIZE: usize = 3;

    /// Reads the header from its three bytes.
    pub fn new(buf: &[u8]) -> (header: SectionCommonHeader)
        requires
            buf@.len() == SectionCommonHeader::SIZE,
        ensures
            header == common_header_of(buf@),
            header.section_length < 0x1000,
    {
        proof {
            lemma_section_length_in_range(buf@);
        }
        SectionCommonHeader {
            table_id: buf[0],
            section_syntax_indicator: buf[1] & 0b1000_0000 != 0,
            private_indicator: buf[1] & 0b0100_0000 != 0,
            section_length: ((u16::from(buf[1] & 0b0000_1111) << 8) | u16::from(buf[2])) as usize,
        }
    }
}

/// The table id extension in bytes 0 and 1 of a table syntax header.
pub open spec fn table_id_extension_of(bytes: Seq<u8>) -> u16 {
    ((bytes[0] as u16) << 8) | (bytes[1] as u16)
}

/// The 5-bit version in byte 2 of a table syntax header.
pub open spec fn version_of(bytes: Seq<u8>) -> u8 {
    (bytes[2] >> 1) & 0b0001_1111
}

/// The lowest bit of byte 2 of a table syntax header: the table applies now,
/// not only later.
pub open spec fn is_current(bytes: Seq<u8>) -> bool {
    bytes[2] & 1 != 0
}

/// A version fits in 5 bits.
pub proof fn lemma_version_in_range(bytes: Seq<u8>)
    ensures
        version_of(bytes) < 32,
{
    let b = bytes[2];
    assert(((b >> 1) & 0b0001_1111) < 32) by (bit_vector);
}

/// The header that follows the common header where the section has the
/// long syntax.
#[derive(Clone, Copy)]
pub struct TableSyntaxHeader<'buf> {
    buf: &'buf [u8],
}

impl<'buf> View for TableSyntaxHeader<'buf> {
    type V = Seq<u8>;

    /// The five bytes of the header.
    closed spec fn view(&self) -> Seq<u8> {
        self.buf@
    }
}

impl<'buf> TableSyntaxHeader<'buf> {
    pub const SIZE: usize = 5;

    #[verifier::type_invariant]
    spec fn well_formed(self) -> bool {
        self.buf@.len() == TableSyntaxHeader::SIZE
    }

    /// Reads the header from the start of `buf`, which may go on after it.
    pub fn new(buf: &'buf [u8]) -> (header: TableSyntaxHeader<'buf>)
        requires
            buf@.len() >= TableSyntaxHeader::SIZE,
        ensures
            header@ == buf@.take(TableSyntaxHeader::SIZE as int),
    {
        TableSyntaxHeader { buf: &buf[0..TableSyntaxHeader::SIZE] }
    }

    pub fn id(&self) -> (r: u16)
        ensures
            self@.len() == TableSyntaxHeader::SIZE,
            r == table_id_extension_of(self@),
    {
        proof {
            use_type_invariant(self);
        }
        (u16::from(self.buf[0]) << 8) | u16::from(self.buf[1])
    }

    pub fn version(&self) -> (r: u8)
        ensures
            self@.len() == TableSyntaxHeader::SIZE,
            r == version_of(self@),
            r < 32,
    {
        proof {
            use_type_invariant(self);
            lemma_version_in_range(self@);
        }
        (self.buf[2] >> 1) & 0b0001_1111
    }

    pub fn current_next_indicator(&self) -> (r: bool)
        ensures
            self@.len() == TableSyntaxHeader::SIZE,
            r == is_current(self@),
    {
        proof {
            use_type_invariant(self);
        }
        self.buf[2] & 1 != 0
    }

    pub fn section_number(&self) -> (r: u8)
        ensures
            self@.len() == TableSyntaxHeader::SIZE,
            r == self@[3],
    {
        proof {
            use_type_invariant(self);
        }
        self.buf[3]
    }

    pub fn last_section_number(&self) -> (r: u8)
        ensures
            self@.len() == TableSyntaxHeader::SIZE,
            r == self@[4],
    {
        proof {
            use_type_invariant(self);
        }
        self.buf[4]
    }
}

/// The size in bytes of the checksum that closes a section.
pub const CRC_SIZE: usize = 4;

/// The least number of bytes that a section with the long syntax can have:
/// both headers and the checksum.
pub const MIN_SECTION_SIZE: usize = 12;

/// Takes the whole sections that a [`SectionPacketConsumer`] has reassembled.
pub trait WholeSectionSyntaxPayloadParser: Sized {
    type Context;

    /// What the implementation says of one call of
    /// [`section`](Self::section): that a parser in state `pre`, handed a
    /// section and the context `pre_ctx`, may be in state `post` afterwards
    /// and leave the context as `post_ctx`.  An implementation that says
    /// nothing of itself keeps this body, by which every outcome is possible.
    open spec fn accepts(
        pre: Self,
        pre_ctx: Self::Context,
        header: SectionCommonHeader,
        table_syntax_header: Seq<u8>,
        data: Seq<u8>,
        post: Self,
        post_ctx: Self::Context,
    ) -> bool {
        true
    }

    /// Handles one section.  `data` is the whole section, from the common
    /// header to the checksum.
    fn section(
        &mut self,
        ctx: &mut Self::Context,
        header: &SectionCommonHeader,
        table_syntax_header: &TableSyntaxHeader,
        data: &[u8],
    )
        ensures
            Self::accepts(
                *old(self),
                *old(ctx),
                *header,
                table_syntax_header@,
                data@,
                *final(self),
                *final(ctx),
            ),
    ;
}

/// Where the reassembly of sections on one PID stands.
pub struct Assembly {
    /// The bytes of the section that is being collected.
    pub pending: Seq<u8>,
    /// How many bytes of that section are still to come; 0 where no section
    /// is being collected.
    pub remaining: nat,
    /// The version of the section that was delivered last.
    pub last_version: Option<u8>,
}

/// Where the reassembly stands after some input, and the sections that the
/// input completed and that were found good, oldest first.
pub struct Progress {
    pub state: Assembly,
    pub delivered: Seq<Seq<u8>>,
}

/// The state in which no section is being collected.
pub open spec fn idle(last_version: Option<u8>) -> Assembly {
    Assembly { pending: Seq::empty(), remaining: 0, last_version }
}

/// The bytes of the table syntax header of a section.
pub open spec fn syntax_header_of(section: Seq<u8>) -> Seq<u8> {
    section.subrange(
        SectionCommonHeader::SIZE as int,
        SectionCommonHeader::SIZE + TableSyntaxHeader::SIZE,
    )
}

/// The body of a section: what stands between the table syntax header and
/// the checksum.
pub open spec fn section_body(section: Seq<u8>) -> Seq<u8> {
    section.subrange(
        SectionCommonHeader::SIZE + TableSyntaxHeader::SIZE,
        section.len() - CRC_SIZE,
    )
}

/// Whether a reassembled section is delivered: it holds both headers and a
/// checksum, the checksum matches, and its version is not that of the
/// section delivered last.
pub open spec fn accepted(last_version: Option<u8>, section: Seq<u8>) -> bool {
    &&& section.len() >= MIN_SECTION_SIZE
    &&& crc_matches(section)
    &&& last_version != Some(version_of(syntax_header_of(section)))
}

/// The size in bytes of the section that starts at the start of `data`,
/// common header included.
pub open spec fn section_size(data: Seq<u8>) -> int {
    SectionCommonHeader::SIZE + section_length_of(data)
}

/// Whether a section that can be collected starts at the start of `data`:
/// `data` holds both of its headers, it has the long syntax, and its length
/// leaves room for the table syntax header and the checksum.
pub open spec fn starts_section(data: Seq<u8>) -> bool {
    &&& data.len() >= SectionCommonHeader::SIZE + TableSyntaxHeader::SIZE
    &&& common_header_of(data).section_syntax_indicator
    &&& section_size(data) >= MIN_SECTION_SIZE
}

impl Progress {
    /// A whole section was collected: it is delivered if it is
    /// [`accepted`], and no section is being collected any more.
    pub open spec fn concluded(self, section: Seq<u8>) -> Progress {
        if accepted(self.state.last_version, section) {
            Progress {
                state: idle(Some(version_of(syntax_header_of(section)))),
                delivered: self.delivered.push(section),
            }
        } else {
            Progress { state: idle(self.state.last_version), delivered: self.delivered }
        }
    }

    /// The section that is being collected is given up.
    pub open spec fn reset(self) -> Progress {
        Progress { state: idle(self.state.last_version), delivered: self.delivered }
    }

    /// More bytes of the section that is being collected arrived.  Bytes
    /// beyond the end of that section, and bytes that arrive while no section
    /// is being collected, are dropped.
    pub open spec fn continued(self, data: Seq<u8>) -> Progress {
        if self.state.remaining == 0 {
            self
        } else if data.len() >= self.state.remaining {
            self.concluded(self.state.pending + data.take(self.state.remaining as int))
        } else {
            Progress {
                state: Assembly {
                    pending: self.state.pending + data,
                    remaining: (self.state.remaining - data.len()) as nat,
                    last_version: self.state.last_version,
                },
                delivered: self.delivered,
            }
        }
    }

    /// A section starts at the start of `data`, which runs to the end of the
    /// packet's payload.
    pub open spec fn begun(self, data: Seq<u8>) -> Progress {
        if !starts_section(data) {
            self.reset()
        } else if section_size(data) <= data.len() {
            self.concluded(data.take(section_size(data)))
        } else {
            Progress {
                state: Assembly {
                    pending: data,
                    remaining: (section_size(data) - data.len()) as nat,
                    last_version: self.state.last_version,
                },
                delivered: self.delivered,
            }
        }
    }

    /// A payload arrived in which a payload unit starts: its first byte says
    /// how many bytes of the section before come first.
    pub open spec fn unit_started(self, payload: Seq<u8>) -> Progress {
        let pointer = payload[0] as int;
        let data = payload.skip(1);
        if pointer >= data.len() && pointer > 0 {
            self.reset()
        } else {
            let before = if pointer > 0 {
                self.continued(data.take(pointer))
            } else {
                self
            };
            if data.len() - pointer < SectionCommonHeader::SIZE {
                before.reset()
            } else {
                before.begun(data.skip(pointer))
            }
        }
    }
}

/// Where the reassembly stands after the packet `pk`, and what the packet
/// completed.
pub open spec fn fed(state: Assembly, pk: Seq<u8>) -> Progress {
    let start = Progress { state, delivered: Seq::empty() };
    match payload_of(pk) {
        None => start,
        Some(payload) => if starts_unit(pk) {
            start.unit_started(payload)
        } else {
            start.continued(payload)
        },
    }
}

/// That a parser in state `pre` may be in state `post` after it was handed
/// `sections` one after the other, each with the headers that it starts
/// with, while the context went from `pre_ctx` to `post_ctx`.
pub open spec fn delivers<P: WholeSectionSyntaxPayloadParser>(
    pre: P,
    pre_ctx: P::Context,
    sections: Seq<Seq<u8>>,
    post: P,
    post_ctx: P::Context,
) -> bool
    decreases sections.len(),
{
    if sections.len() == 0 {
        post == pre && post_ctx == pre_ctx
    } else {
        exists|mid: P, mid_ctx: P::Context|
            {
                &&& delivers::<P>(pre, pre_ctx, sections.drop_last(), mid, mid_ctx)
                &&& #[trigger] P::accepts(
                    mid,
                    mid_ctx,
                    common_header_of(sections.last()),
                    syntax_header_of(sections.last()),
                    sections.last(),
                    post,
                    post_ctx,
                )
            }
    }
}

/// Where the reassembly stands after the packets `pks`, one after the other,
/// and what they completed.
pub open spec fn fed_all(state: Assembly, pks: Seq<Seq<u8>>) -> Progress
    decreases pks.len(),
{
    if pks.len() == 0 {
        Progress { state, delivered: Seq::empty() }
    } else {
        let before = fed_all(state, pks.drop_last());
        let last = fed(before.state, pks.last());
        Progress { state: last.state, delivered: before.delivered + last.delivered }
    }
}

/// The bytes that follow the pointer field in the payload of a packet.
pub open spec fn unit_data(pk: Seq<u8>) -> Seq<u8> {
    payload_of(pk)->0.skip(1)
}

/// The bytes of one section that the first `n` of the packets `pks` carry,
/// where the section starts right after the pointer field of the first.
pub open spec fn carried(pks: Seq<Seq<u8>>, n: int) -> Seq<u8>
    decreases n,
{
    if n <= 0 {
        Seq::empty()
    } else if n == 1 {
        unit_data(pks[0])
    } else {
        carried(pks, n - 1) + payload_of(pks[n - 1])->0
    }
}

/// Whether the packets `pks` carry one section and no more: it starts right
/// after the pointer field of the first packet, the packets after the first
/// continue it, and it ends in the last.
pub open spec fn carries_section(pks: Seq<Seq<u8>>) -> bool {
    &&& pks.len() >= 1
    &&& payload_of(pks[0]) is Some
    &&& starts_unit(pks[0])
    &&& payload_of(pks[0])->0[0] == 0
    &&& payload_of(pks[0])->0.len() > SectionCommonHeader::SIZE
    &&& starts_section(unit_data(pks[0]))
    &&& forall|i: int|
        1 <= i < pks.len() ==> (#[trigger] payload_of(pks[i])) is Some && !starts_unit(pks[i])
    &&& carried(pks, pks.len() - 1).len() < section_size(unit_data(pks[0])) <= carried(
        pks,
        pks.len() as int,
    ).len()
}

/// The section that packets carry.
pub open spec fn section_of(pks: Seq<Seq<u8>>) -> Seq<u8> {
    carried(pks, pks.len() as int).take(section_size(unit_data(pks[0])))
}

/// The more packets, the more bytes they carry.
proof fn lemma_carried_grows(pks: Seq<Seq<u8>>, m: int, n: int)
    requires
        0 <= m <= n,
    ensures
        carried(pks, m).len() <= carried(pks, n).len(),
    decreases n - m,
{
    if m < n {
        lemma_carried_grows(pks, m, n - 1);
    }
}

/// While packets carry a section that has not ended, it is being collected.
proof fn lemma_collecting(state: Assembly, pks: Seq<Seq<u8>>, n: int)
    requires
        carries_section(pks),
        1 <= n < pks.len(),
    ensures
        fed_all(state, pks.take(n)) == (Progress {
            state: Assembly {
                pending: carried(pks, n),
                remaining: (section_size(unit_data(pks[0])) - carried(pks, n).len()) as nat,
                last_version: state.last_version,
            },
            delivered: Seq::empty(),
        }),
    decreases n,
{
    lemma_carried_grows(pks, n, pks.len() - 1);
    assert(pks.take(n).drop_last() =~= pks.take(n - 1));
    if n == 1 {
        let data = unit_data(pks[0]);
        assert(data.skip(0) =~= data);
    } else {
        lemma_collecting(state, pks, n - 1);
        lemma_carried_grows(pks, n - 1, n);
    }
}

/// Packets that carry one section deliver that section if it is
/// [`accepted`], and nothing else, wherever the reassembly stood.
pub proof fn lemma_section_fed(state: Assembly, pks: Seq<Seq<u8>>)
    requires
        carries_section(pks),
    ensures
        fed_all(state, pks) == (Progress { state, delivered: Seq::empty() }).concluded(
            section_of(pks),
        ),
{
    let n = pks.len() as int;
    if n == 1 {
        let data = unit_data(pks[0]);
        assert(data.skip(0) =~= data);
    } else {
        lemma_collecting(state, pks, n - 1);
        let before = fed_all(state, pks.take(n - 1));
        let last = payload_of(pks[n - 1])->0;
        assert(before.state.pending + last.take(before.state.remaining as int) =~= section_of(
            pks,
        ));
    }
}

/// The same section twice: packets that carry one section, fed again right
/// after they were fed, deliver nothing, and leave the reassembly where it
/// stood.
pub proof fn lemma_repeated_section_dropped(state: Assembly, pks: Seq<Seq<u8>>)
    requires
        carries_section(pks),
    ensures
        fed_all(fed_all(state, pks).state, pks).delivered.len() == 0,
        fed_all(fed_all(state, pks).state, pks).state == fed_all(state, pks).state,
{
    lemma_section_fed(state, pks);
    lemma_section_fed(fed_all(state, pks).state, pks);
}

/// Where packets deliver nothing, none of them does.
pub proof fn lemma_none_delivered(state: Assembly, pks: Seq<Seq<u8>>, n: int)
    requires
        fed_all(state, pks).delivered.len() == 0,
        0 <= n < pks.len(),
    ensures
        fed(fed_all(state, pks.take(n)).state, pks[n]).delivered.len() == 0,
        fed_all(state, pks.take(n)).delivered.len() == 0,
        fed_all(state, pks.take(n + 1)).state == fed(fed_all(state, pks.take(n)).state, pks[n]).state,
    decreases pks.len() - n,
{
    assert(pks.take(n + 1).drop_last() =~= pks.take(n));
    if n + 1 < pks.len() {
        lemma_none_delivered(state, pks, n + 1);
    }
}

/// Handing over one more section, where it is [`accepted`], extends what
/// [`delivers`] says by that section.
proof fn lemma_delivers_concluded<P: WholeSectionSyntaxPayloadParser>(
    first: P,
    first_ctx: P::Context,
    sofar: Seq<Seq<u8>>,
    mid: P,
    mid_ctx: P::Context,
    last_version: Option<u8>,
    section: Seq<u8>,
    post: P,
    post_ctx: P::Context,
)
    requires
        delivers::<P>(first, first_ctx, sofar, mid, mid_ctx),
        accepted(last_version, section) ==> P::accepts(
            mid,
            mid_ctx,
            common_header_of(section),
            syntax_header_of(section),
            section,
            post,
            post_ctx,
        ),
        !accepted(last_version, section) ==> post == mid && post_ctx == mid_ctx,
    ensures
        delivers::<P>(
            first,
            first_ctx,
            if accepted(last_version, section) {
                sofar.push(section)
            } else {
                sofar
            },
            post,
            post_ctx,
        ),
{
    if accepted(last_version, section) {
        assert(sofar.push(section).drop_last() =~= sofar);
        assert(sofar.push(section).last() == section);
    }
}

/// Reassembles the sections that the packets of one PID carry, and hands
/// each whole section whose checksum matches, and whose version differs from
/// that of the section handed over before, to a parser.
pub struct SectionPacketConsumer<P> {
    parser: P,
    buf: Vec<u8>,
    remaining: usize,
    last_version: Option<u8>,
}

impl<P> View for SectionPacketConsumer<P> {
    type V = Assembly;

    /// Where the reassembly stands.
    closed spec fn view(&self) -> Assembly {
        Assembly {
            pending: self.buf@,
            remaining: self.remaining as nat,
            last_version: self.last_version,
        }
    }
}

/// Adds `data` at the end of `buf`.
fn append(buf: &mut Vec<u8>, data: &[u8])
    ensures
        final(buf)@ == old(buf)@ + data@,
{
    buf.extend_from_slice(data);
    assert(buf@ =~= old(buf)@ + data@);
}

impl<P: WholeSectionSyntaxPayloadParser> SectionPacketConsumer<P> {
    pub fn new(parser: P) -> (consumer: SectionPacketConsumer<P>)
        ensures
            consumer@ == idle(None),
            consumer.parser() == parser,
    {
        SectionPacketConsumer { parser, buf: Vec::new(), remaining: 0, last_version: None }
    }

    /// The parser that the sections are handed to.
    pub closed spec fn parser(&self) -> P {
        self.parser
    }

    /// Hands a whole section to the parser if it is [`accepted`].
    fn conclude(
        parser: &mut P,
        last_version: &mut Option<u8>,
        ctx: &mut P::Context,
        section: &[u8],
    )
        ensures
            accepted(*old(last_version), section@) ==> *final(last_version) == Some(
                version_of(syntax_header_of(section@)),
            ) && P::accepts(
                *old(parser),
                *old(ctx),
                common_header_of(section@),
                syntax_header_of(section@),
                section@,
                *final(parser),
                *final(ctx),
            ),
            !accepted(*old(last_version), section@) ==> *final(last_version) == *old(last_version)
                && *final(parser) == *old(parser) && *final(ctx) == *old(ctx),
    {
        if section.len() < MIN_SECTION_SIZE {
            return ;
        }
        if !check_crc(section) {
            return ;
        }
        let header = SectionCommonHeader::new(&section[0..SectionCommonHeader::SIZE]);
        let table_syntax_header = TableSyntaxHeader::new(
            &section[SectionCommonHeader::SIZE..section.len()],
        );
        proof {
            assert(table_syntax_header@ =~= syntax_header_of(section@));
        }
        let version = table_syntax_header.version();
        match *last_version {
            Some(last) => {
                if last == version {
                    return ;
                }
            },
            None => {},
        }
        *last_version = Some(version);
        parser.section(ctx, &header, &table_syntax_header, section);
    }

    /// Gives up the section that is being collected.
    fn reset(&mut self)
        ensures
            final(self)@ == idle(old(self)@.last_version),
            final(self).parser() == old(self).parser(),
    {
        self.buf.clear();
        self.remaining = 0;
    }

    /// Takes more bytes of the section that is being collected.
    fn continue_section(
        &mut self,
        ctx: &mut P::Context,
        data: &[u8],
        Ghost(first): Ghost<P>,
        Ghost(first_ctx): Ghost<P::Context>,
        Ghost(sofar): Ghost<Seq<Seq<u8>>>,
    )
        requires
            delivers::<P>(first, first_ctx, sofar, old(self).parser(), *old(ctx)),
        ensures
            ({
                let next = (Progress { state: old(self)@, delivered: sofar }).continued(data@);
                &&& final(self)@ == next.state
                &&& delivers::<P>(
                    first,
                    first_ctx,
                    next.delivered,
                    final(self).parser(),
                    *final(ctx),
                )
            }),
    {
        if self.remaining == 0 {
            return ;
        }
        if data.len() >= self.remaining {
            append(&mut self.buf, &data[0..self.remaining]);
            Self::conclude(&mut self.parser, &mut self.last_version, ctx, self.buf.as_slice());
            proof {
                lemma_delivers_concluded::<P>(
                    first,
                    first_ctx,
                    sofar,
                    old(self).parser(),
                    *old(ctx),
                    old(self)@.last_version,
                    self.buf@,
                    self.parser(),
                    *ctx,
                );
            }
            self.buf.clear();
            self.remaining = 0;
        } else {
            append(&mut self.buf, data);
            self.remaining = self.remaining - data.len();
        }
    }

    /// Takes the start of a section, which runs to the end of a payload.
    fn start_section(
        &mut self,
        ctx: &mut P::Context,
        data: &[u8],
        Ghost(first): Ghost<P>,
        Ghost(first_ctx): Ghost<P::Context>,
        Ghost(sofar): Ghost<Seq<Seq<u8>>>,
    )
        requires
            data@.len() >= SectionCommonHeader::SIZE,
            delivers::<P>(first, first_ctx, sofar, old(self).parser(), *old(ctx)),
        ensures
            ({
                let next = (Progress { state: old(self)@, delivered: sofar }).begun(data@);
                &&& final(self)@ == next.state
                &&& delivers::<P>(
                    first,
                    first_ctx,
                    next.delivered,
                    final(self).parser(),
                    *final(ctx),
                )
            }),
    {
        let header = SectionCommonHeader::new(&data[0..SectionCommonHeader::SIZE]);
        let size: usize = SectionCommonHeader::SIZE + header.section_length;
        if data.len() < SectionCommonHeader::SIZE + TableSyntaxHeader::SIZE
            || !header.section_syntax_indicator || size < MIN_SECTION_SIZE {
            self.reset();
            return ;
        }
        if size <= data.len() {
            Self::conclude(&mut self.parser, &mut self.last_version, ctx, &data[0..size]);
            proof {
                lemma_delivers_concluded::<P>(
                    first,
                    first_ctx,
                    sofar,
                    old(self).parser(),
                    *old(ctx),
                    old(self)@.last_version,
                    data@.take(size as int),
                    self.parser(),
                    *ctx,
                );
            }
            self.buf.clear();
            self.remaining = 0;
        } else {
            self.buf.clear();
            append(&mut self.buf, data);
            self.remaining = size - data.len();
        }
    }

    /// Takes the packet `pk` of the PID whose sections are reassembled here.
    /// The state moves as [`fed`] says, and the parser is handed the sections
    /// that `pk` completes.
    pub fn consume(&mut self, ctx: &mut P::Context, pk: Packet)
        ensures
            final(self)@ == fed(old(self)@, pk@).state,
            delivers::<P>(
                old(self).parser(),
                *old(ctx),
                fed(old(self)@, pk@).delivered,
                final(self).parser(),
                *final(ctx),
            ),
    {
        let ghost first = self.parser;
        let ghost first_ctx = *ctx;
        let ghost none = Seq::<Seq<u8>>::empty();
        match pk.payload() {
            None => {},
            Some(payload) => {
                if pk.payload_unit_start_indicator() {
                    let pointer: usize = payload[0] as usize;
                    let data = &payload[1..payload.len()];
                    let ghost mut sofar = none;
                    if pointer > 0 {
                        if pointer >= data.len() {
                            self.reset();
                            return ;
                        }
                        self.continue_section(
                            ctx,
                            &data[0..pointer],
                            Ghost(first),
                            Ghost(first_ctx),
                            Ghost(none),
                        );
                        proof {
                            sofar = (Progress { state: old(self)@, delivered: none }).continued(
                                data@.take(pointer as int),
                            ).delivered;
                        }
                    }
                    let next = &data[pointer..data.len()];
                    if next.len() < SectionCommonHeader::SIZE {
                        self.reset();
                        return ;
                    }
                    self.start_section(ctx, next, Ghost(first), Ghost(first_ctx), Ghost(sofar));
                } else {
                    self.continue_section(
                        ctx,
                        payload,
                        Ghost(first),
                        Ghost(first_ctx),
                        Ghost(none),
                    );
                }
            },
        }
    }
}

} // verus!
