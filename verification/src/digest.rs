//! Content digests, computed piece by piece.
//!
//! The digest itself is the work of the `md5` crate. What is proved here is
//! that a digest does not depend on how the content is cut into pieces on its
//! way into the context.

use vstd::prelude::*;
use vstd::slice::slice_subrange;

verus! {

/// The number of bytes that [`compute_md5`] hands to the digest at a time.
pub const MD5_CHUNK_SIZE: usize = 1_000_000;

/// The digest context of the `md5` crate. Nothing inside it is visible here.
#[verifier::external_type_specification]
#[verifier::external_body]
pub struct ExMd5Context(md5::Context);

/// The bytes that a digest context has consumed since it was made, in the
/// order in which it consumed them.
pub uninterp spec fn md5_consumed(context: md5::Context) -> Seq<u8>;

/// The MD5 digest of a sequence of bytes: the sixteen bytes that
/// `md5::Context::compute` returns for a context that has consumed them.
pub uninterp spec fn md5_digest(data: Seq<u8>) -> Seq<u8>;

/// `md5::Context::new`: a context that has consumed nothing yet.
#[verifier::external_body]
fn md5_context_new() -> (context: md5::Context)
    ensures
        md5_consumed(context) == Seq::<u8>::empty(),
{
    md5::Context::new()
}

/// `md5::Context::consume`: the context takes in `data` after what it has
/// consumed before. The crate works through the bytes one by one and keeps no
/// trace of where one call ended and the next began.
#[verifier::external_body]
fn md5_context_consume(context: &mut md5::Context, data: &[u8])
    ensures
        md5_consumed(*final(context)) == md5_consumed(*old(context)) + data@,
{
    context.consume(data)
}

/// `md5::Context::compute`: the digest of all that the context has consumed.
#[verifier::external_body]
fn md5_context_compute(context: md5::Context) -> (digest: [u8; 16])
    ensures
        digest@ == md5_digest(md5_consumed(context)),
{
    context.compute().0
}

/// A digest in the making: content goes in piece by piece, the digest comes
/// out at the end.
pub struct Md5Stream {
    context: md5::Context,
}

impl Md5Stream {
    /// The bytes taken in so far, in order.
    pub closed spec fn consumed(&self) -> Seq<u8> {
        md5_consumed(self.context)
    }

    /// Starts a digest of no content.
    pub fn new() -> (stream: Md5Stream)
        ensures
            stream.consumed() == Seq::<u8>::empty(),
    {
        Md5Stream { context: md5_context_new() }
    }

    /// Takes in the next piece of the content.
    pub fn consume(&mut self, piece: &[u8])
        ensures
            final(self).consumed() == old(self).consumed() + piece@,
    {
        md5_context_consume(&mut self.context, piece)
    }

    /// The digest of the content taken in: that of all pieces put end to end,
    /// wherever the cuts between them were.
    pub fn finish(self) -> (digest: [u8; 16])
        ensures
            digest@ == md5_digest(self.consumed()),
    {
        md5_context_compute(self.context)
    }
}

/// The digest of `data`, consumed in one piece.
pub fn md5_of(data: &[u8]) -> (digest: [u8; 16])
    ensures
        digest@ == md5_digest(data@),
{
    let mut stream = Md5Stream::new();
    stream.consume(data);
    assert(Seq::<u8>::empty() + data@ =~= data@);
    stream.finish()
}

/// The digest of `data`, read through in pieces of [`MD5_CHUNK_SIZE`] bytes.
/// It is the digest that [`md5_of`] gives for the same content, whether `data`
/// is shorter or longer than one read.
pub fn compute_md5(data: &[u8]) -> (digest: [u8; 16])
    ensures
        digest@ == md5_digest(data@),
{
    let mut stream = Md5Stream::new();
    let len = data.len();
    let mut position: usize = 0;
    assert(data@.take(0) =~= Seq::<u8>::empty());
    while position < len
        invariant
            len == data@.len(),
            position <= len,
            stream.consumed() == data@.take(position as int),
        decreases len - position,
    {
        let end = if len - position <= MD5_CHUNK_SIZE {
            len
        } else {
            position + MD5_CHUNK_SIZE
        };
        let piece = slice_subrange(data, position, end);
        stream.consume(piece);
        assert(data@.take(position as int) + data@.subrange(position as int, end as int)
            =~= data@.take(end as int));
        position = end;
    }
    assert(data@.take(len as int) =~= data@);
    stream.finish()
}

} // verus!
