//! The pipeline: lines in, a run of gzip parts out.

use crate::lines::{join_lines, lemma_join_append, lemma_join_push, no_newline, NEWLINE};
use crate::gz::gunzip_member;
use crate::part::{capped, PartWriter};
use crate::rollover::{Decision, Driver, CHECKPOINT_LINES};
use vstd::prelude::*;

verus! {

/// The lines of `ps`, part after part.
pub open spec fn concat_parts(ps: Seq<Seq<Seq<u8>>>) -> Seq<Seq<u8>>
    decreases ps.len(),
{
    if ps.len() == 0 {
        Seq::empty()
    } else {
        concat_parts(ps.drop_last()) + ps.last()
    }
}

/// The plain contents of the parts `ps`, part after part.
pub open spec fn part_bytes(ps: Seq<Seq<Seq<u8>>>) -> Seq<u8>
    decreases ps.len(),
{
    if ps.len() == 0 {
        Seq::empty()
    } else {
        part_bytes(ps.drop_last()) + join_lines(ps.last())
    }
}

/// Decoding every part and concatenating the results in index order gives
/// back the lines that were split over them, each with its newline.
pub proof fn lemma_parts_rejoin(ps: Seq<Seq<Seq<u8>>>)
    ensures
        part_bytes(ps) == join_lines(concat_parts(ps)),
    decreases ps.len(),
{
    if ps.len() > 0 {
        lemma_parts_rejoin(ps.drop_last());
        lemma_join_append(concat_parts(ps.drop_last()), ps.last());
    }
}

/// Every part of `ps` holds a positive multiple of `CHECKPOINT_LINES` lines.
pub open spec fn full_parts(ps: Seq<Seq<Seq<u8>>>) -> bool {
    forall|i: int|
        0 <= i < ps.len() ==> (#[trigger] ps[i]).len() >= CHECKPOINT_LINES && ps[i].len() as int
            % (CHECKPOINT_LINES as int) == 0
}

/// Why the pipeline stopped.
#[derive(Debug)]
pub enum PipelineError {
    /// The gzip stream of a part failed.
    Output(std::io::Error),
    /// A part would be closed, but no index is left for the next one.
    TooManyParts,
}

/// What became of a pushed line, with the compressed bytes that are due to
/// the part files.
#[derive(Debug)]
pub enum Pushed {
    /// The line went to the open part.
    Written,
    /// The open part was measured at `size` bytes and stays open; `out`
    /// continues its file. The line went to it.
    Checked { size: u64, out: Vec<u8> },
    /// The open part was measured at `size` bytes and closed; `tail` ends its
    /// file. The line went to the next part.
    RolledOver { size: u64, tail: Vec<u8> },
}

/// What a pipeline stands for.
pub struct PipelineState {
    /// The lines of each closed part, by index.
    pub closed: Seq<Seq<Seq<u8>>>,
    /// The lines of the open part.
    pub current: Seq<Seq<u8>>,
    /// Lines written to the open part since its last measurement.
    pub since_check: nat,
    pub target: nat,
    /// The compressed bytes of the open part handed out so far.
    pub emitted: Seq<u8>,
    /// The sizes measured on the open part that kept it open, in order.
    pub sizes: Seq<nat>,
}

/// All lines pushed so far, in order.
pub open spec fn lines_in(s: PipelineState) -> Seq<Seq<u8>> {
    concat_parts(s.closed) + s.current
}

pub struct Pipeline {
    driver: Driver,
    writer: PartWriter,
    closed: Ghost<Seq<Seq<Seq<u8>>>>,
    current: Ghost<Seq<Seq<u8>>>,
    sizes: Ghost<Seq<nat>>,
}

impl View for Pipeline {
    type V = PipelineState;

    closed spec fn view(&self) -> PipelineState {
        PipelineState {
            closed: self.closed@,
            current: self.current@,
            since_check: self.driver@.since_check,
            target: self.driver@.target,
            emitted: self.writer@.taken,
            sizes: self.sizes@,
        }
    }
}

impl Pipeline {
    pub closed spec fn wf(&self) -> bool {
        &&& self.driver.wf()
        &&& self.writer.wf()
        &&& self.driver@.part == self.closed@.len()
        &&& self.writer@.data == join_lines(self.current@)
        &&& self.driver@.since_check <= self.current@.len()
        &&& (self.current@.len() - self.driver@.since_check) as int % (CHECKPOINT_LINES as int) == 0
        &&& full_parts(self.closed@)
        &&& self.sizes@.len() * CHECKPOINT_LINES + self.driver@.since_check == self.current@.len()
        &&& forall|i: int| 0 <= i < self.sizes@.len() ==> #[trigger] self.sizes@[i] < self.driver@.target
    }

    /// A part is measured every `CHECKPOINT_LINES` lines and closed only on a
    /// measurement, so each closed part holds a positive multiple of
    /// `CHECKPOINT_LINES` lines; the open one has had a measurement exactly
    /// every `CHECKPOINT_LINES` lines.
    pub proof fn lemma_closed_parts_full(&self)
        requires
            self.wf(),
        ensures
            full_parts(self@.closed),
            (self@.current.len() - self@.since_check) as int % (CHECKPOINT_LINES as int) == 0,
            self@.since_check <= self@.current.len(),
    {
    }

    /// Opens part 0, empty, for parts closed at `target` bytes.
    pub fn new(target: u64) -> (r: Pipeline)
        ensures
            r.wf(),
            r@ == (PipelineState {
                closed: Seq::empty(),
                current: Seq::empty(),
                since_check: 0,
                target: target as nat,
                emitted: Seq::empty(),
                sizes: Seq::empty(),
            }),
    {
        Pipeline {
            driver: Driver::new(target),
            writer: PartWriter::new(),
            closed: Ghost(Seq::empty()),
            current: Ghost(Seq::empty()),
            sizes: Ghost(Seq::empty()),
        }
    }

    /// The index of the open part: the number of parts closed before it.
    pub fn part_index(&self) -> (r: u32)
        requires
            self.wf(),
        ensures
            r as nat == self@.closed.len(),
    {
        self.driver.part_index()
    }

    /// Writes one line. Before it goes in, a part that has had exactly
    /// `CHECKPOINT_LINES` lines since its last measurement is measured, and
    /// closed when that size has reached the target.
    pub fn push_line(&mut self, line: &[u8]) -> (r: Result<Pushed, PipelineError>)
        requires
            old(self).wf(),
            no_newline(line@),
        ensures
            old(self)@.closed.is_prefix_of(final(self)@.closed),
            r is Ok ==> final(self).wf() && final(self)@.target == old(self)@.target
                && lines_in(final(self)@) == lines_in(old(self)@).push(line@),
            old(self)@.since_check < CHECKPOINT_LINES ==> r is Ok && r->Ok_0 is Written,
            old(self)@.closed.len() < u32::MAX ==> r is Ok,
            r is Err ==> (r matches Err(PipelineError::TooManyParts)),
            r is Err ==> final(self)@.closed == old(self)@.closed && lines_in(final(self)@)
                == lines_in(old(self)@),
            r matches Ok(Pushed::Written) ==> old(self)@.since_check < CHECKPOINT_LINES
                && final(self)@.closed == old(self)@.closed
                && final(self)@.current == old(self)@.current.push(line@)
                && final(self)@.since_check == old(self)@.since_check + 1
                && final(self)@.emitted == old(self)@.emitted
                && final(self)@.sizes == old(self)@.sizes,
            r matches Ok(Pushed::Checked { size, out }) ==> old(self)@.since_check
                == CHECKPOINT_LINES && size < old(self)@.target
                && final(self)@.closed == old(self)@.closed
                && final(self)@.current == old(self)@.current.push(line@)
                && final(self)@.since_check == 1
                && final(self)@.emitted == old(self)@.emitted + out@
                && size as nat == capped(final(self)@.emitted.len())
                && final(self)@.sizes == old(self)@.sizes.push(size as nat),
            r matches Ok(Pushed::RolledOver { size, tail }) ==> old(self)@.since_check
                == CHECKPOINT_LINES && size >= old(self)@.target
                && old(self)@.current.len() >= CHECKPOINT_LINES
                && final(self)@.closed == old(self)@.closed.push(old(self)@.current)
                && final(self)@.current == seq![line@]
                && final(self)@.since_check == 1
                && final(self)@.emitted == Seq::<u8>::empty()
                && final(self)@.sizes == Seq::<nat>::empty()
                && old(self)@.current.len() == (old(self)@.sizes.len() + 1) * CHECKPOINT_LINES
                && (forall|i: int| 0 <= i < old(self)@.sizes.len() ==> #[trigger] old(self)@.sizes[i]
                < old(self)@.target)
                && gunzip_member(old(self)@.emitted + tail@) == Some(join_lines(old(self)@.current)),
            r matches Err(PipelineError::TooManyParts) ==> old(self)@.since_check
                == CHECKPOINT_LINES && old(self)@.closed.len() == u32::MAX,
    {
        let mut result = Pushed::Written;
        if self.driver.check_due() {
            let measured = self.writer.measure();
            let (size, out) = match measured {
                Ok(m) => m,
                Err(e) => return Err(PipelineError::Output(e)),
            };
            match self.driver.on_measured(size) {
                Decision::Keep => {
                    self.sizes = Ghost(self.sizes@.push(size as nat));
                    result = Pushed::Checked { size, out };
                },
                Decision::RollOver => {
                    let mut old_writer = PartWriter::new();
                    std::mem::swap(&mut old_writer, &mut self.writer);
                    let mut tail = out;
                    match old_writer.finish() {
                        Ok(rest) => {
                            let ghost r0 = rest@;
                            let mut rest = rest;
                            tail.append(&mut rest);
                            assert(old(self)@.emitted + tail@ =~= old_writer@.taken + r0);
                        },
                        Err(e) => return Err(PipelineError::Output(e)),
                    }
                    self.closed = Ghost(self.closed@.push(self.current@));
                    self.current = Ghost(Seq::empty());
                    self.sizes = Ghost(Seq::empty());
                    result = Pushed::RolledOver { size, tail };
                },
                Decision::OutOfIndices => {
                    assert(old(self)@.closed.len() == u32::MAX);
                    return Err(PipelineError::TooManyParts);
                },
            }
        }
        match self.writer.write_line(line) {
            Ok(()) => {},
            Err(e) => return Err(PipelineError::Output(e)),
        }
        let ghost prev = self.current@;
        self.current = Ghost(self.current@.push(line@));
        self.driver.on_line_written();
        proof {
            lemma_join_push(prev, line@);
            let ps = self.closed@;
            if ps != old(self)@.closed {
                assert(ps.drop_last() =~= old(self)@.closed);
                assert(concat_parts(ps) == concat_parts(old(self)@.closed) + old(self)@.current);
            }
            assert(lines_in(self@) =~= lines_in(old(self)@).push(line@));
        }
        Ok(result)
    }

    /// Ends the input: the open part is closed, and the rest of its
    /// compressed bytes are returned. No line may be pushed after this.
    pub fn finish(&mut self) -> (r: Result<Vec<u8>, PipelineError>)
        requires
            old(self).wf(),
        ensures
            final(self)@.target == old(self)@.target,
            r is Ok,
            r matches Ok(v) ==> gunzip_member(old(self)@.emitted + v@) == Some(
                join_lines(old(self)@.current),
            ),
            final(self)@.closed == old(self)@.closed.push(old(self)@.current),
            final(self)@.current == Seq::<Seq<u8>>::empty(),
            lines_in(final(self)@) == lines_in(old(self)@),
    {
        let mut w = PartWriter::new();
        std::mem::swap(&mut w, &mut self.writer);
        match w.finish() {
            Ok(tail) => {
                let ghost prev = self@;
                self.closed = Ghost(self.closed@.push(self.current@));
                self.current = Ghost(Seq::empty());
                proof {
                    assert(self.closed@.drop_last() =~= prev.closed);
                    assert(lines_in(self@) =~= lines_in(prev));
                }
                Ok(tail)
            },
            Err(e) => Err(PipelineError::Output(e)),
        }
    }
}

} // verus!
