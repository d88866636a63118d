//! The fixed-capacity byte buffer that the calendar formatters write into.

use vstd::prelude::*;

verus! {

/// Number of bytes a [`DateTimeBuffer`] can hold.
pub const CAPACITY: usize = 32;

/// An append-only byte buffer of [`CAPACITY`] bytes, kept inline in a
/// `heapless::Vec`.
#[verifier::external_body]
pub struct DateTimeBuffer {
    bytes: heapless::Vec<u8, heapless::consts::U32>,
}

/// The bytes that a buffer holds, oldest first.
pub uninterp spec fn buffer_contents(buf: DateTimeBuffer) -> Seq<u8>;

impl View for DateTimeBuffer {
    type V = Seq<u8>;

    open spec fn view(&self) -> Seq<u8> {
        buffer_contents(*self)
    }
}

/// `heapless::Vec::new`: a vector that holds nothing.
#[verifier::external_body]
fn vec_new() -> (buf: DateTimeBuffer)
    ensures
        buffer_contents(buf) == Seq::<u8>::empty(),
{
    DateTimeBuffer { bytes: heapless::Vec::new() }
}

/// `heapless::Vec::push`: appends the byte while fewer than [`CAPACITY`]
/// bytes are held; a full vector is left as it was and hands the byte back.
#[verifier::external_body]
fn vec_push(buf: &mut DateTimeBuffer, byte: u8) -> (pushed: Result<(), u8>)
    ensures
        pushed.is_ok() <==> buffer_contents(*old(buf)).len() < CAPACITY,
        pushed.is_ok() ==> buffer_contents(*final(buf)) == buffer_contents(*old(buf)).push(byte),
        pushed matches Err(back) ==> back == byte && buffer_contents(*final(buf))
            == buffer_contents(*old(buf)),
{
    buf.bytes.push(byte)
}

/// `heapless::Vec::extend_from_slice`: appends all of `other` when the
/// result stays within [`CAPACITY`] bytes; otherwise nothing is appended.
#[verifier::external_body]
fn vec_extend_from_slice(buf: &mut DateTimeBuffer, other: &[u8]) -> (extended: Result<(), ()>)
    ensures
        extended.is_ok() <==> buffer_contents(*old(buf)).len() + other@.len() <= CAPACITY,
        extended.is_ok() ==> buffer_contents(*final(buf)) == buffer_contents(*old(buf)) + other@,
        extended.is_err() ==> buffer_contents(*final(buf)) == buffer_contents(*old(buf)),
{
    buf.bytes.extend_from_slice(other)
}

/// `Deref` of `heapless::Vec`: the held bytes as a slice.
#[verifier::external_body]
fn vec_as_slice(buf: &DateTimeBuffer) -> (bytes: &[u8])
    ensures
        bytes@ == buffer_contents(*buf),
{
    &buf.bytes
}

impl DateTimeBuffer {
    /// An empty buffer.
    pub fn new() -> (buf: DateTimeBuffer)
        ensures
            buf@ == Seq::<u8>::empty(),
    {
        vec_new()
    }

    /// The bytes written so far.
    pub fn as_slice(&self) -> (bytes: &[u8])
        ensures
            bytes@ == self@,
    {
        vec_as_slice(self)
    }

    /// Appends one byte while fewer than [`CAPACITY`] bytes are held. A full
    /// buffer is left as it was and hands the byte back.
    pub fn push(&mut self, byte: u8) -> (pushed: Result<(), u8>)
        ensures
            pushed is Ok <==> old(self)@.len() < CAPACITY,
            pushed is Ok ==> final(self)@ == old(self)@.push(byte),
            pushed matches Err(back) ==> back == byte && final(self)@ == old(self)@,
    {
        vec_push(self, byte)
    }

    /// Appends all of `other` where the buffer has room for it. Where it
    /// has not, nothing is appended.
    pub fn extend_from_slice(&mut self, other: &[u8]) -> (extended: Result<(), ()>)
        ensures
            extended is Ok <==> old(self)@.len() + other@.len() <= CAPACITY,
            extended is Ok ==> final(self)@ == old(self)@ + other@,
            extended is Err ==> final(self)@ == old(self)@,
    {
        vec_extend_from_slice(self, other)
    }
}

} // verus!
