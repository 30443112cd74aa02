//! Demultiplexing of MPEG-2 Transport Streams.
//!
//! A transport stream is a sequence of 188-byte packets, each labelled with a
//! 13-bit PID.  The [`demultiplex::Demultiplex`] dispatcher hands every packet
//! to the filter registered for its PID, and lets the Program Association and
//! Program Map tables found in the stream add and remove filters as programs
//! and elementary streams come and go.
//!
//! * [`packet`]: the fixed header of a packet.
//! * [`psi`]: sections, their checksum, and their reassembly from packets.
//! * [`descriptor`] and [`stream_type`]: what tables say of streams.
//! * [`filters`]: the table of filters by PID, and the changes that wait for it.
//! * [`context`]: the filters, the constructor and the context that an
//!   application supplies.
//! * [`pat`] and [`pmt`]: the two tables, and the filters that follow them.
//! * [`registry`]: what the two have in common.
//! * [`demultiplex`]: the dispatcher.
//! * [`bitset`]: what is taken on trust of the bit set in use.
//!
//! The contracts are proved with Verus.  What a filter or a constructor of the
//! application does is known to the library only as far as the application
//! says it: each of the traits in [`context`] has a relation for that, and
//! the contracts of the library are stated over these relations.

pub mod bitset;
pub mod context;
pub mod demultiplex;
pub mod descriptor;
pub mod filters;
pub mod packet;
pub mod pat;
pub mod pmt;
pub mod psi;
pub mod registry;
pub mod stream_type;
