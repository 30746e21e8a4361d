//! One output part: a gzip stream being written, and what has been handed
//! out of it so far.

use crate::gz::{
    encoder_finish, encoder_flush, encoder_input, encoder_output, encoder_take, encoder_write,
    gunzip_member, new_encoder, Encoder,
};
use crate::lines::NEWLINE;
use vstd::prelude::*;

verus! {

/// `n`, or `u64::MAX` where it does not fit.
pub open spec fn capped(n: nat) -> nat {
    if n <= u64::MAX { n } else { u64::MAX as nat }
}

/// What a part writer stands for: the plain bytes fed to its stream, and the
/// compressed bytes handed out of it.
pub struct PartState {
    pub data: Seq<u8>,
    pub taken: Seq<u8>,
}

pub struct PartWriter {
    encoder: Encoder,
    emitted: u64,
}

impl View for PartWriter {
    type V = PartState;

    closed spec fn view(&self) -> PartState {
        PartState { data: encoder_input(self.encoder), taken: encoder_output(self.encoder) }
    }
}

impl PartWriter {
    /// The count of bytes handed out is kept, capped at `u64::MAX`.
    pub closed spec fn wf(&self) -> bool {
        self.emitted as nat == capped(self@.taken.len())
    }

    /// Opens a fresh gzip stream with nothing in it.
    pub fn new() -> (r: PartWriter)
        ensures
            r.wf(),
            r@.data == Seq::<u8>::empty(),
            r@.taken == Seq::<u8>::empty(),
    {
        PartWriter { encoder: new_encoder(), emitted: 0 }
    }

    /// Appends the bytes of `line` and one newline to the stream.
    pub fn write_line(&mut self, line: &[u8]) -> (r: Result<(), std::io::Error>)
        requires
            old(self).wf(),
        ensures
            r is Ok,
            final(self).wf(),
            final(self)@.taken == old(self)@.taken,
            final(self)@.data == old(self)@.data + line@ + seq![NEWLINE],
    {
        let nl: [u8; 1] = [NEWLINE];
        encoder_write(&mut self.encoder, line)?;
        encoder_write(&mut self.encoder, nl.as_slice())?;
        Ok(())
    }

    /// Flushes the stream and hands out the compressed bytes that it has
    /// produced since the last call, together with the part's size so far:
    /// all the compressed bytes handed out of it.
    pub fn measure(&mut self) -> (r: Result<(u64, Vec<u8>), std::io::Error>)
        requires
            old(self).wf(),
        ensures
            r is Ok,
            final(self).wf(),
            final(self)@.data == old(self)@.data,
            r matches Ok((size, out)) ==> final(self)@.taken == old(self)@.taken + out@
                && size as nat == capped(final(self)@.taken.len()),
    {
        encoder_flush(&mut self.encoder)?;
        let out = encoder_take(&mut self.encoder);
        let n = out.len() as u64;
        self.emitted = if n <= u64::MAX - self.emitted {
            self.emitted + n
        } else {
            u64::MAX
        };
        Ok((self.emitted, out))
    }

    /// Ends the stream and hands out its remaining compressed bytes: after
    /// those handed out before, they form one gzip member holding the bytes
    /// fed.
    pub fn finish(self) -> (r: Result<Vec<u8>, std::io::Error>)
        ensures
            r is Ok,
            r matches Ok(v) ==> gunzip_member(self@.taken + v@) == Some(self@.data),
    {
        encoder_finish(self.encoder)
    }
}

} // verus!
