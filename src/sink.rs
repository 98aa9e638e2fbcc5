//! Where the bytes of a script go when they are streamed.
use vstd::prelude::*;

verus! {

/// `std::io::Error`, the error a sink reports; carried through opaquely.
#[verifier::external_type_specification]
#[verifier::external_body]
pub struct ExIoError(std::io::Error);

/// A fallible destination of bytes, written in order.
pub trait ByteSink {
    /// The bytes written so far.
    spec fn written(&self) -> Seq<u8>;

    /// Whether every write to this sink succeeds.
    spec fn infallible(&self) -> bool;

    /// Writes all of `bytes`, or fails after writing some first part of
    /// them.
    fn write_all(&mut self, bytes: &[u8]) -> (r: Result<(), std::io::Error>)
        ensures
            r is Ok ==> final(self).written() == old(self).written() + bytes@,
            exists|n: int|
                0 <= n <= bytes@.len() && final(self).written() == old(self).written()
                    + bytes@.take(n),
            old(self).infallible() ==> r is Ok && final(self).infallible(),
    ;
}

impl ByteSink for Vec<u8> {
    open spec fn written(&self) -> Seq<u8> {
        self@
    }

    open spec fn infallible(&self) -> bool {
        true
    }

    fn write_all(&mut self, bytes: &[u8]) -> (r: Result<(), std::io::Error>)
        ensures
            r is Ok,
            final(self)@ == old(self)@ + bytes@,
    {
        let mut i: usize = 0;
        while i < bytes.len()
            invariant
                i <= bytes@.len(),
                self@ == old(self)@ + bytes@.take(i as int),
            decreases bytes@.len() - i,
        {
            self.push(bytes[i]);
            assert(bytes@.take(i + 1) =~= bytes@.take(i as int).push(bytes@[i as int]));
            i = i + 1;
        }
        assert(bytes@.take(bytes@.len() as int) =~= bytes@);
        assert(self.written() == old(self).written() + bytes@);
        assert(bytes@.take(bytes@.len() as int) == bytes@);
        assert(self.infallible());
        Ok(())
    }
}

} // verus!
