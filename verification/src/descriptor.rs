//! Descriptors: tagged, length-prefixed records that tables attach to
//! programs and to elementary streams.

use vstd::prelude::*;

verus! {

/// The size in bytes of the tag and length that every descriptor starts with.
pub const DESCRIPTOR_HEADER_SIZE: usize = 2;

/// The size in bytes of the descriptor at the start of `bytes`, header
/// included, where `bytes` holds all of it.
pub open spec fn descriptor_size(bytes: Seq<u8>) -> Option<int> {
    if bytes.len() >= DESCRIPTOR_HEADER_SIZE && DESCRIPTOR_HEADER_SIZE + bytes[1] <= bytes.len() {
        Some(DESCRIPTOR_HEADER_SIZE + bytes[1])
    } else {
        None
    }
}

/// The descriptors that `bytes` holds, each with its header, up to the first
/// that `bytes` does not hold whole.
pub open spec fn descriptors_of(bytes: Seq<u8>) -> Seq<Seq<u8>>
    decreases bytes.len(),
{
    match descriptor_size(bytes) {
        Some(n) => seq![bytes.take(n)] + descriptors_of(bytes.skip(n)),
        None => Seq::empty(),
    }
}

/// One descriptor.
#[derive(Clone, Copy)]
pub struct Descriptor<'buf> {
    data: &'buf [u8],
}

impl<'buf> View for Descriptor<'buf> {
    type V = Seq<u8>;

    /// The bytes of the descriptor, header included.
    closed spec fn view(&self) -> Seq<u8> {
        self.data@
    }
}

impl<'buf> Descriptor<'buf> {
    #[verifier::type_invariant]
    spec fn well_formed(self) -> bool {
        descriptor_size(self.data@) == Some(self.data@.len() as int)
    }

    /// What kind of descriptor this is.
    pub fn tag(&self) -> (r: u8)
        ensures
            descriptor_size(self@) == Some(self@.len() as int),
            r == self@[0],
    {
        proof {
            use_type_invariant(self);
        }
        self.data[0]
    }

    /// The bytes after the header.
    pub fn payload(&self) -> (r: &'buf [u8])
        ensures
            descriptor_size(self@) == Some(self@.len() as int),
            r@ == self@.skip(DESCRIPTOR_HEADER_SIZE as int),
    {
        proof {
            use_type_invariant(self);
        }
        &self.data[DESCRIPTOR_HEADER_SIZE..self.data.len()]
    }
}

/// Walks the descriptors in a run of bytes.
pub struct DescriptorIter<'buf> {
    buf: &'buf [u8],
}

impl<'buf> View for DescriptorIter<'buf> {
    type V = Seq<u8>;

    /// The bytes that have not been walked yet.
    closed spec fn view(&self) -> Seq<u8> {
        self.buf@
    }
}

impl<'buf> DescriptorIter<'buf> {
    pub fn new(buf: &'buf [u8]) -> (iter: DescriptorIter<'buf>)
        ensures
            iter@ == buf@,
    {
        DescriptorIter { buf }
    }

    /// The next descriptor, or `None` where the bytes that are left hold no
    /// whole descriptor.
    pub fn next(&mut self) -> (r: Option<Descriptor<'buf>>)
        ensures
            match descriptor_size(old(self)@) {
                Some(n) => r is Some && r->0@ == old(self)@.take(n) && final(self)@ == old(
                    self,
                )@.skip(n),
                None => r is None && final(self)@ == old(self)@,
            },
    {
        let len = self.buf.len();
        if len < DESCRIPTOR_HEADER_SIZE {
            return None;
        }
        let end: usize = DESCRIPTOR_HEADER_SIZE + self.buf[1] as usize;
        if end > len {
            return None;
        }
        let data = &self.buf[0..end];
        self.buf = &self.buf[end..len];
        Some(Descriptor { data })
    }

    /// The descriptors that are left, in order.
    pub fn collect(self) -> (r: Vec<Descriptor<'buf>>)
        ensures
            r@.len() == descriptors_of(self@).len(),
            forall|i: int| 0 <= i < r@.len() ==> (#[trigger] r@[i])@ == descriptors_of(self@)[i],
    {
        let mut iter = self;
        let mut r: Vec<Descriptor<'buf>> = Vec::new();
        loop
            invariant
                descriptors_of(self@) =~= r@.map_values(|d: Descriptor<'buf>| d@) + descriptors_of(
                    iter@,
                ),
            ensures
                descriptors_of(self@) =~= r@.map_values(|d: Descriptor<'buf>| d@),
            decreases iter@.len(),
        {
            match iter.next() {
                Some(d) => {
                    r.push(d);
                },
                None => {
                    break ;
                },
            }
        }
        r
    }
}

} // verus!
