//! Append-only byte sinks.

use crate::image::push_bytes;
use vstd::prelude::*;

verus! {

/// A destination that accepts bytes in order and never gives them back.
///
/// The sink alone decides whether a write succeeds. What it states in
/// advance is [`Sink::accepts`]: a number of bytes for which it promises
/// room. A sink that can promise nothing accepts nothing in advance and is
/// still free to succeed.
pub trait Sink {
    /// What the sink reports when it rejects a write.
    type Error;

    /// Every byte the sink has taken so far, in order.
    spec fn bytes(&self) -> Seq<u8>;

    /// Whether the sink promises to take `n` more bytes.
    spec fn accepts(&self, n: nat) -> bool;

    /// A sink that promises room for some bytes promises room for fewer.
    proof fn lemma_accepts_fewer(&self, fewer: nat, n: nat)
        requires
            self.accepts(n),
            fewer <= n,
        ensures
            self.accepts(fewer),
    ;

    /// Appends all of `data`, or fails.
    ///
    /// After a success the sink holds the old bytes followed by `data`, and
    /// what was promised beyond `data` is still promised. After a failure it
    /// holds the old bytes followed by some first part of `data`, maybe none
    /// of it.
    fn write_all(&mut self, data: &[u8]) -> (result: Result<(), Self::Error>)
        ensures
            old(self).accepts(data@.len()) ==> result is Ok,
            result is Ok ==> final(self).bytes() == old(self).bytes() + data@,
            result is Ok ==> forall|n: nat| #[trigger]
                old(self).accepts(n) && n >= data@.len() ==> final(self).accepts(
                    (n - data@.len()) as nat,
                ),
            result is Err ==> old(self).bytes().is_prefix_of(final(self).bytes()),
            result is Err ==> final(self).bytes().is_prefix_of(old(self).bytes() + data@),
    ;
}

/// The error of the in-memory sinks: the bytes offered do not fit.
#[derive(Clone, Copy, Debug, PartialEq, Eq, Structural)]
pub struct Exhausted {
    /// Number of bytes that the rejected write offered.
    pub offered: usize,
    /// Number of bytes that the sink still had room for.
    pub room: usize,
}

/// A growable buffer takes bytes until its length would pass `usize::MAX`.
impl Sink for Vec<u8> {
    type Error = Exhausted;

    open spec fn bytes(&self) -> Seq<u8> {
        self@
    }

    open spec fn accepts(&self, n: nat) -> bool {
        self@.len() + n <= usize::MAX
    }

    proof fn lemma_accepts_fewer(&self, fewer: nat, n: nat) {
    }

    fn write_all(&mut self, data: &[u8]) -> (result: Result<(), Exhausted>)
        ensures
            result is Ok <==> old(self).accepts(data@.len()),
            result matches Err(e) ==> e.offered == data@.len() && e.room == usize::MAX - old(
                self,
            )@.len() && final(self)@ == old(self)@,
    {
        let room: usize = usize::MAX - self.len();
        if data.len() > room {
            return Err(Exhausted { offered: data.len(), room });
        }
        push_bytes(self, data);
        Ok(())
    }
}

/// A buffer of fixed capacity: it takes bytes until it is full, and rejects
/// a write that does not fit as a whole.
#[derive(Clone, Debug, PartialEq, Eq)]
pub struct Bounded {
    data: Vec<u8>,
    capacity: usize,
}

impl Bounded {
    /// The bytes in the buffer.
    pub closed spec fn contents(&self) -> Seq<u8> {
        self.data@
    }

    /// The number of bytes that the buffer holds at most.
    pub closed spec fn limit(&self) -> nat {
        self.capacity as nat
    }

    /// The number of bytes that the buffer still has room for.
    pub open spec fn room(&self) -> nat {
        if self.contents().len() <= self.limit() {
            (self.limit() - self.contents().len()) as nat
        } else {
            0
        }
    }

    /// An empty buffer that holds at most `capacity` bytes.
    pub fn new(capacity: usize) -> (created: Self)
        ensures
            created.contents() == Seq::<u8>::empty(),
            created.limit() == capacity,
    {
        Bounded { data: Vec::new(), capacity }
    }

    /// The number of bytes that the buffer holds at most.
    pub fn capacity(&self) -> (capacity: usize)
        ensures
            capacity == self.limit(),
    {
        self.capacity
    }

    /// The bytes in the buffer.
    pub fn as_bytes(&self) -> (bytes: &[u8])
        ensures
            bytes@ == self.contents(),
    {
        self.data.as_slice()
    }
}

impl Sink for Bounded {
    type Error = Exhausted;

    open spec fn bytes(&self) -> Seq<u8> {
        self.contents()
    }

    open spec fn accepts(&self, n: nat) -> bool {
        n <= self.room()
    }

    proof fn lemma_accepts_fewer(&self, fewer: nat, n: nat) {
    }

    fn write_all(&mut self, data: &[u8]) -> (result: Result<(), Exhausted>)
        ensures
            result is Ok <==> old(self).accepts(data@.len()),
            final(self).limit() == old(self).limit(),
            result matches Err(e) ==> e.offered == data@.len() && e.room == old(self).room()
                && final(self).contents() == old(self).contents(),
    {
        let used: usize = self.data.len();
        let room: usize = if used <= self.capacity {
            self.capacity - used
        } else {
            0
        };
        if data.len() > room {
            return Err(Exhausted { offered: data.len(), room });
        }
        push_bytes(&mut self.data, data);
        Ok(())
    }
}

} // verus!
