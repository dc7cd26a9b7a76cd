//! MD5 digests, streamed through the `md5` crate.

use vstd::prelude::*;
use crate::text::{hex_lower, to_hex_lower};

verus! {

#[verifier::external_type_specification]
#[verifier::external_body]
pub struct ExMd5Context(md5::Context);

/// The MD5 digest (16 bytes) of a byte sequence.
pub uninterp spec fn md5_digest(data: Seq<u8>) -> Seq<u8>;

/// An MD5 computation in progress, together with the bytes it has absorbed.
pub struct Md5Hasher {
    ctx: md5::Context,
    absorbed: Ghost<Seq<u8>>,
}

impl Md5Hasher {
    /// Every byte handed to the hasher so far, in order.
    pub closed spec fn absorbed(&self) -> Seq<u8> {
        self.absorbed@
    }

    /// `md5::Context::new`: a context that has absorbed nothing.
    #[verifier::external_body]
    fn open_context() -> (h: Self)
        ensures
            h.absorbed() == Seq::<u8>::empty(),
    {
        Md5Hasher { ctx: md5::Context::new(), absorbed: Ghost(Seq::empty()) }
    }

    /// `md5::Context::consume`: the bytes are appended to what the context has absorbed.
    #[verifier::external_body]
    fn feed(&mut self, data: &[u8])
        ensures
            final(self).absorbed() == old(self).absorbed() + data@,
    {
        self.ctx.consume(data);
    }

    /// `md5::Context::compute`: the 16-byte MD5 digest of everything absorbed.
    #[verifier::external_body]
    fn close(self) -> (d: Vec<u8>)
        ensures
            d@ == md5_digest(self.absorbed()),
            d@.len() == 16,
    {
        self.ctx.compute().0.to_vec()
    }

    /// A hasher that has absorbed nothing.
    pub fn new() -> (h: Self)
        ensures
            h.absorbed() == Seq::<u8>::empty(),
    {
        Self::open_context()
    }

    /// Absorbs more bytes, after those already absorbed.
    pub fn consume(&mut self, data: &[u8])
        ensures
            final(self).absorbed() == old(self).absorbed() + data@,
    {
        self.feed(data);
    }

    /// The 16-byte digest of everything absorbed.
    pub fn finish(self) -> (d: Vec<u8>)
        ensures
            d@ == md5_digest(self.absorbed()),
            d@.len() == 16,
    {
        self.close()
    }

    /// The digest of everything absorbed, as 32 lower-case hexadecimal digits.
    pub fn finish_hex(self) -> (s: String)
        ensures
            s@ == hex_lower(md5_digest(self.absorbed())),
    {
        let d = self.finish();
        to_hex_lower(&d)
    }
}

} // verus!
