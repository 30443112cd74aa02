//! What the application supplies: the filters that consume packets, the
//! constructor that makes a filter when a PID needs one, and the context
//! that carries the constructor and the pending changes from call to call.

use crate::filters::{FilterChange, FilterChangeset};
use crate::packet::Packet;
use crate::pmt::{PmtSection, StreamInfo};
use crate::stream_type::StreamType;
use std::marker::PhantomData;
use vstd::prelude::*;

verus! {

/// Why a filter is asked for.
pub enum FilterRequest<'a, 'buf> {
    /// A packet with this PID arrived, and no table has announced the PID.
    ByPid(u16),
    /// A Program Map Table announced this elementary stream.
    ByStream(StreamType, &'a PmtSection<'buf>, &'a StreamInfo<'buf>),
    /// The Program Association Table announced that this PID carries the
    /// Program Map Table of this program.
    Pmt { pid: u16, program_number: u16 },
}

/// What a [`FilterRequest`] says: the numbers it holds, and the bytes of the
/// table body and of the stream entry that it refers to.
pub enum RequestView {
    ByPid(u16),
    ByStream(StreamType, Seq<u8>, Seq<u8>),
    Pmt { pid: u16, program_number: u16 },
}

impl<'a, 'buf> View for FilterRequest<'a, 'buf> {
    type V = RequestView;

    open spec fn view(&self) -> RequestView {
        match *self {
            FilterRequest::ByPid(pid) => RequestView::ByPid(pid),
            FilterRequest::ByStream(stream_type, section, info) => RequestView::ByStream(
                stream_type,
                section@,
                info@,
            ),
            FilterRequest::Pmt { pid, program_number } => RequestView::Pmt { pid, program_number },
        }
    }
}

/// Makes the filter for a PID.
pub trait StreamConstructor: Sized {
    /// The type of every filter of the application.
    type F;

    /// What the implementation says of one call of
    /// [`construct`](Self::construct): that a constructor in state `pre` may
    /// answer `req` with `filter` and be in state `post` afterwards.  An
    /// implementation that says nothing of itself keeps this body, by which
    /// every answer is possible.
    open spec fn constructs(pre: Self, req: RequestView, post: Self, filter: Self::F) -> bool {
        true
    }

    fn construct(&mut self, req: FilterRequest) -> (filter: Self::F)
        ensures
            Self::constructs(*old(self), req@, *final(self), filter),
    ;
}

/// The state that is handed to every filter: the changes to the filter table
/// that wait to be made, and the constructor of new filters.
///
/// A filter cannot change the table that it is itself held in while it runs:
/// it asks for changes through the changeset, and the dispatcher makes them
/// once the filter has returned.
pub trait DemuxContext: Sized {
    type F;

    type Ctor: StreamConstructor<F = Self::F>;

    /// The changeset that the context carries.  A verified implementation
    /// names its field here; the body given here names nothing.
    open spec fn changeset(&self) -> FilterChangeset<Self::F> {
        arbitrary()
    }

    /// The constructor that the context carries.  A verified implementation
    /// names its field here; the body given here names nothing.
    open spec fn constructor(&self) -> Self::Ctor {
        arbitrary()
    }

    /// Access to the changeset.  Nothing but the changeset changes through it.
    fn filter_changeset(&mut self) -> (changeset: &mut FilterChangeset<Self::F>)
        ensures
            *changeset == old(self).changeset(),
            final(self).changeset() == *final(changeset),
            final(self).constructor() == old(self).constructor(),
    ;

    /// Access to the constructor.  Nothing but the constructor changes
    /// through it.
    fn filter_constructor(&mut self) -> (constructor: &mut Self::Ctor)
        ensures
            *constructor == old(self).constructor(),
            final(self).constructor() == *final(constructor),
            final(self).changeset() == old(self).changeset(),
    ;
}

/// Consumes the packets of one PID.
pub trait PacketFilter: Sized {
    type Ctx: DemuxContext;

    /// What the implementation says of one call of
    /// [`consume`](Self::consume): that a filter in state `pre`, handed the
    /// packet `pk` and a context with the pending changes `edits` and the
    /// constructor `ctor`, may be in state `post` afterwards and leave the
    /// context with `post_edits` and `post_ctor`.  An implementation that
    /// says nothing of itself keeps this body, by which every outcome is
    /// possible.
    open spec fn consumes(
        pre: Self,
        edits: Seq<FilterChange<<Self::Ctx as DemuxContext>::F>>,
        ctor: <Self::Ctx as DemuxContext>::Ctor,
        pk: Seq<u8>,
        post: Self,
        post_edits: Seq<FilterChange<<Self::Ctx as DemuxContext>::F>>,
        post_ctor: <Self::Ctx as DemuxContext>::Ctor,
    ) -> bool {
        true
    }

    fn consume(&mut self, ctx: &mut Self::Ctx, pk: Packet)
        ensures
            Self::consumes(
                *old(self),
                old(ctx).changeset()@,
                old(ctx).constructor(),
                pk@,
                *final(self),
                final(ctx).changeset()@,
                final(ctx).constructor(),
            ),
    ;
}

/// That a filter in state `pre` may be in state `post` after it consumed the
/// packets `pks` one after the other, while the pending changes and the
/// constructor in the context went from `edits` and `ctor` to `post_edits`
/// and `post_ctor`.
pub open spec fn consumes_all<F: PacketFilter>(
    pre: F,
    edits: Seq<FilterChange<<F::Ctx as DemuxContext>::F>>,
    ctor: <F::Ctx as DemuxContext>::Ctor,
    pks: Seq<Seq<u8>>,
    post: F,
    post_edits: Seq<FilterChange<<F::Ctx as DemuxContext>::F>>,
    post_ctor: <F::Ctx as DemuxContext>::Ctor,
) -> bool
    decreases pks.len(),
{
    if pks.len() == 0 {
        post == pre && post_edits == edits && post_ctor == ctor
    } else {
        exists|
            mid: F,
            mid_edits: Seq<FilterChange<<F::Ctx as DemuxContext>::F>>,
            mid_ctor: <F::Ctx as DemuxContext>::Ctor,
        |
            {
                &&& consumes_all::<F>(pre, edits, ctor, pks.drop_last(), mid, mid_edits, mid_ctor)
                &&& #[trigger] F::consumes(
                    mid,
                    mid_edits,
                    mid_ctor,
                    pks.last(),
                    post,
                    post_edits,
                    post_ctor,
                )
            }
    }
}

/// A filter that drops every packet.
pub struct NullPacketFilter<Ctx: DemuxContext> {
    phantom: PhantomData<Ctx>,
}

impl<Ctx: DemuxContext> NullPacketFilter<Ctx> {
    /// A filter for an elementary stream that the application has no use for.
    pub fn construct(_pmt: &PmtSection, _stream_info: &StreamInfo) -> NullPacketFilter<Ctx> {
        Self::new()
    }

    pub fn new() -> NullPacketFilter<Ctx> {
        NullPacketFilter { phantom: PhantomData }
    }
}

impl<Ctx: DemuxContext> PacketFilter for NullPacketFilter<Ctx> {
    type Ctx = Ctx;

    /// Nothing changes.
    open spec fn consumes(
        pre: Self,
        edits: Seq<FilterChange<Ctx::F>>,
        ctor: Ctx::Ctor,
        pk: Seq<u8>,
        post: Self,
        post_edits: Seq<FilterChange<Ctx::F>>,
        post_ctor: Ctx::Ctor,
    ) -> bool {
        post == pre && post_edits == edits && post_ctor == ctor
    }

    fn consume(&mut self, _ctx: &mut Self::Ctx, _pk: Packet) {
    }
}

/// A filter that drops every packet, and remembers that it was handed one.
/// Installed for the PIDs that no table announces, it lets the application
/// report each such PID once.
pub struct UnhandledPid<Ctx: DemuxContext> {
    pid_seen: bool,
    phantom: PhantomData<Ctx>,
}

impl<Ctx: DemuxContext> UnhandledPid<Ctx> {
    pub fn new() -> (filter: UnhandledPid<Ctx>)
        ensures
            !filter.spec_pid_seen(),
    {
        UnhandledPid { pid_seen: false, phantom: PhantomData }
    }

    pub closed spec fn spec_pid_seen(&self) -> bool {
        self.pid_seen
    }

    /// Whether a packet has been handed to this filter.
    #[verifier::when_used_as_spec(spec_pid_seen)]
    pub fn pid_seen(&self) -> (r: bool)
        ensures
            r == self.spec_pid_seen(),
    {
        self.pid_seen
    }
}

impl<Ctx: DemuxContext> PacketFilter for UnhandledPid<Ctx> {
    type Ctx = Ctx;

    /// The filter has seen a packet; the context is as it was.
    open spec fn consumes(
        pre: Self,
        edits: Seq<FilterChange<Ctx::F>>,
        ctor: Ctx::Ctor,
        pk: Seq<u8>,
        post: Self,
        post_edits: Seq<FilterChange<Ctx::F>>,
        post_ctor: Ctx::Ctor,
    ) -> bool {
        post.spec_pid_seen() && post_edits == edits && post_ctor == ctor
    }

    fn consume(&mut self, _ctx: &mut Self::Ctx, _pk: Packet) {
        if !self.pid_seen {
            self.pid_seen = true;
        }
    }
}

} // verus!
