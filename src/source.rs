//! The line source: a gzip stream, fed in chunks, read back as lines of text.

use crate::gz::{
    decoder_finish, decoder_input, decoder_taken, decoder_take, decoder_write, gunzip_member,
    is_utf8, new_decoder, utf8_ok, Decoder,
};
use crate::lines::{all_lines, join_lines, lemma_join_append, lemma_join_push, views, LineSplitter, NEWLINE};
use vstd::prelude::*;

verus! {

/// `ls` are the lines of `b`: `b` is their bytes, each line followed by a
/// newline, except that the last line may lack its newline where it is not
/// empty.
pub open spec fn lines_of(b: Seq<u8>, ls: Seq<Seq<u8>>) -> bool {
    &&& all_lines(ls)
    &&& (join_lines(ls) == b || (ls.len() > 0 && ls.last().len() > 0 && join_lines(ls) == b.push(
        NEWLINE,
    )))
}

/// Every line of `ls` is text.
pub open spec fn all_text(ls: Seq<Seq<u8>>) -> bool {
    forall|i: int| 0 <= i < ls.len() ==> is_utf8(#[trigger] ls[i])
}

/// Why the input could not be read.
#[derive(Debug)]
pub enum SourceError {
    /// The gzip stream is malformed or cut short.
    Input(std::io::Error),
    /// A line is not well-formed UTF-8.
    NotText,
}

/// What a line source stands for.
pub struct SourceState {
    /// The plain bytes decoded so far.
    pub decoded: Seq<u8>,
    /// The lines handed out so far.
    pub lines: Seq<Seq<u8>>,
    /// The compressed bytes taken by the decoder so far.
    pub fed: Seq<u8>,
    /// Whether the gzip member has ended; later bytes are ignored.
    pub ended: bool,
}

/// Returns the index of the first line that is not text, if there is one.
pub fn first_non_text(lines: &Vec<Vec<u8>>) -> (r: Option<usize>)
    ensures
        r is None <==> all_text(views(lines@)),
        r matches Some(i) ==> i < lines@.len() && !is_utf8(lines@[i as int]@),
{
    let mut i: usize = 0;
    while i < lines.len()
        invariant
            0 <= i <= lines@.len(),
            forall|j: int| 0 <= j < i ==> is_utf8(#[trigger] views(lines@)[j]),
        decreases lines@.len() - i,
    {
        if !utf8_ok(lines[i].as_slice()) {
            assert(!is_utf8(views(lines@)[i as int]));
            return Some(i);
        }
        i = i + 1;
    }
    None
}

pub struct LineSource {
    decoder: Decoder,
    splitter: LineSplitter,
    member_ended: bool,
    finished: bool,
    decoded: Ghost<Seq<u8>>,
    lines: Ghost<Seq<Seq<u8>>>,
    fed: Ghost<Seq<u8>>,
}

impl View for LineSource {
    type V = SourceState;

    closed spec fn view(&self) -> SourceState {
        SourceState {
            decoded: self.decoded@,
            lines: self.lines@,
            fed: self.fed@,
            ended: self.member_ended,
        }
    }
}

impl LineSource {
    /// The lines and the tail are the decoded bytes.
    closed spec fn lines_wf(&self) -> bool {
        &&& self.splitter.wf()
        &&& all_lines(self.lines@)
        &&& join_lines(self.lines@) + self.splitter@ == self.decoded@
    }

    /// Open for input, with the decoder holding what was fed and taken.
    pub closed spec fn wf(&self) -> bool {
        &&& self.lines_wf()
        &&& !self.finished
        &&& decoder_input(self.decoder) == self.fed@
        &&& decoder_taken(self.decoder) == self.decoded@
    }

    pub fn new() -> (r: LineSource)
        ensures
            r.wf(),
            r@.decoded == Seq::<u8>::empty(),
            r@.lines == Seq::<Seq<u8>>::empty(),
            r@.fed == Seq::<u8>::empty(),
            !r@.ended,
    {
        let r = LineSource {
            decoder: new_decoder(),
            splitter: LineSplitter::new(),
            member_ended: false,
            finished: false,
            decoded: Ghost(Seq::empty()),
            lines: Ghost(Seq::empty()),
            fed: Ghost(Seq::empty()),
        };
        assert(join_lines(r.lines@) + r.splitter@ =~= r.decoded@);
        r
    }

    /// Takes decoded bytes and returns the lines they complete.
    fn absorb(&mut self, bytes: Vec<u8>) -> (r: Vec<Vec<u8>>)
        requires
            old(self).lines_wf(),
        ensures
            final(self).lines_wf(),
            final(self).finished == old(self).finished,
            final(self)@.lines == old(self)@.lines + views(r@),
            final(self)@.decoded == old(self)@.decoded + bytes@,
            final(self)@.fed == old(self)@.fed,
            final(self)@.ended == old(self)@.ended,
            final(self).decoder == old(self).decoder,
    {
        let ghost tail = self.splitter@;
        let r = self.splitter.push_bytes(bytes.as_slice());
        proof {
            lemma_join_append(self.lines@, views(r@));
            assert(self.decoded@ + bytes@ =~= join_lines(self.lines@) + (tail + bytes@));
            assert(join_lines(self.lines@) + (join_lines(views(r@)) + self.splitter@)
                =~= join_lines(self.lines@ + views(r@)) + self.splitter@);
            assert(all_lines(self.lines@ + views(r@)));
        }
        self.lines = Ghost(self.lines@ + views(r@));
        self.decoded = Ghost(self.decoded@ + bytes@);
        r
    }

    /// Feeds the next compressed bytes and returns the lines that are now
    /// complete. Bytes after the end of the gzip member are ignored.
    pub fn feed(&mut self, chunk: &[u8]) -> (r: Result<Vec<Vec<u8>>, SourceError>)
        requires
            old(self).wf(),
        ensures
            !(r matches Err(SourceError::Input(_))) ==> final(self).wf(),
            r matches Err(SourceError::Input(_)) ==> !old(self)@.ended && chunk@.len() > 0
                && final(self)@.fed == old(self)@.fed + chunk@ && gunzip_member(
                final(self)@.fed,
            ) is None,
            old(self)@.decoded.is_prefix_of(final(self)@.decoded),
            old(self)@.lines.is_prefix_of(final(self)@.lines),
            r is Ok ==> final(self)@.fed == old(self)@.fed + chunk@ || (final(self)@.ended
                && old(self)@.fed.is_prefix_of(final(self)@.fed)),
            old(self)@.ended ==> final(self)@.fed == old(self)@.fed && final(self)@.ended,
            r matches Ok(ls) ==> final(self)@.lines == old(self)@.lines + views(ls@)
                && all_text(views(ls@)) && all_lines(views(ls@)),
            r matches Err(SourceError::NotText) ==> !all_text(
                final(self)@.lines.subrange(
                    old(self)@.lines.len() as int,
                    final(self)@.lines.len() as int,
                ),
            ),
    {
        let mut i: usize = 0;
        while i < chunk.len() && !self.member_ended
            invariant
                self.wf(),
                self@.decoded == old(self)@.decoded,
                self@.lines == old(self)@.lines,
                i <= chunk@.len(),
                self@.fed == old(self)@.fed + chunk@.subrange(0, i as int),
                old(self)@.ended ==> self@.ended && i == 0,
            decreases chunk@.len() - i, if self.member_ended { 0int } else { 1int },
        {
            let (_, rest) = chunk.split_at(i);
            match decoder_write(&mut self.decoder, rest) {
                Ok(0) => {
                    self.member_ended = true;
                },
                Ok(n) => {
                    self.fed = Ghost(self.fed@ + rest@.subrange(0, n as int));
                    assert(chunk@.subrange(0, i + n) =~= chunk@.subrange(0, i as int)
                        + rest@.subrange(0, n as int));
                    i = i + n;
                },
                Err(e) => {
                    proof {
                        assert(chunk@ =~= chunk@.subrange(0, i as int) + rest@);
                    }
                    self.fed = Ghost(self.fed@ + rest@);
                    return Err(SourceError::Input(e));
                },
            }
        }
        assert(i == chunk@.len() ==> chunk@.subrange(0, i as int) =~= chunk@);
        let bytes = decoder_take(&mut self.decoder);
        let ls = self.absorb(bytes);
        assert(decoder_taken(self.decoder) == self.decoded@);
        proof {
            assert(old(self)@.lines.is_prefix_of(self@.lines));
            assert(self@.lines.subrange(old(self)@.lines.len() as int, self@.lines.len() as int)
                =~= views(ls@));
        }
        match first_non_text(&ls) {
            Some(_) => Err(SourceError::NotText),
            None => Ok(ls),
        }
    }

    /// Ends the input: checks the gzip trailer and returns the remaining
    /// lines, the unterminated tail last. On success the lines handed out are
    /// the lines of all the decoded bytes, and those bytes are the content
    /// of the gzip member that was fed.
    pub fn finish(&mut self) -> (r: Result<Vec<Vec<u8>>, SourceError>)
        requires
            old(self).wf(),
        ensures
            (r is Ok || r matches Err(SourceError::NotText)) <==> gunzip_member(old(self)@.fed) is Some,
            !(r matches Err(SourceError::Input(_))) ==> gunzip_member(final(self)@.fed) == Some(
                final(self)@.decoded,
            ),
            final(self)@.ended,
            final(self)@.fed == old(self)@.fed,
            old(self)@.decoded.is_prefix_of(final(self)@.decoded),
            old(self)@.lines.is_prefix_of(final(self)@.lines),
            r matches Ok(ls) ==> final(self)@.lines == old(self)@.lines + views(ls@)
                && all_text(views(ls@)) && all_lines(views(ls@)) && lines_of(final(self)@.decoded, final(self)@.lines),
            r matches Err(SourceError::NotText) ==> !all_text(
                final(self)@.lines.subrange(
                    old(self)@.lines.len() as int,
                    final(self)@.lines.len() as int,
                ),
            ),
    {
        assert(all_lines(self@.lines));
        let mut decoder = new_decoder();
        std::mem::swap(&mut decoder, &mut self.decoder);
        self.member_ended = true;
        self.finished = true;
        let bytes = match decoder_finish(decoder) {
            Ok(b) => b,
            Err(e) => return Err(SourceError::Input(e)),
        };
        let mut ls = self.absorb(bytes);
        let ghost mid = self@;
        let mut splitter = LineSplitter::new();
        std::mem::swap(&mut splitter, &mut self.splitter);
        match splitter.finish() {
            Some(last) => {
                proof {
                    lemma_join_append(mid.lines, seq![last@]);
                    lemma_join_push(Seq::empty(), last@);
                    assert(Seq::<Seq<u8>>::empty().push(last@) =~= seq![last@]);
                    assert(join_lines(Seq::<Seq<u8>>::empty()) =~= Seq::<u8>::empty());
                    assert(join_lines(mid.lines + seq![last@]) =~= mid.decoded.push(NEWLINE));
                }
                ls.push(last);
                self.lines = Ghost(self.lines@ + seq![last@]);
            },
            None => {
                assert(join_lines(mid.lines) =~= mid.decoded);
            },
        }
        proof {
            assert(old(self)@.lines.is_prefix_of(self@.lines));
            assert(self@.lines =~= old(self)@.lines + views(ls@));
            assert(self@.lines.subrange(old(self)@.lines.len() as int, self@.lines.len() as int)
                =~= views(ls@));
        }
        match first_non_text(&ls) {
            Some(_) => Err(SourceError::NotText),
            None => Ok(ls),
        }
    }
}

} // verus!
