//! The whole splitter: compressed input in, chunk by chunk; for the part
//! files, compressed bytes out.

use crate::lines::{all_lines, join_lines, no_newline, views, NEWLINE};
use crate::rollover::CHECKPOINT_LINES;
use crate::pipeline::{concat_parts, full_parts, lemma_parts_rejoin, lines_in, part_bytes, Pipeline, PipelineError, Pushed};
use crate::gz::gunzip_member;
use crate::source::{all_text, lines_of, LineSource, SourceError};
use vstd::prelude::*;

verus! {

/// What to do with the part files.
#[derive(Debug)]
pub enum Emit {
    /// Append these bytes to the open part's file.
    Data(Vec<u8>),
    /// Append `tail` to the file of part `part`, the open one, and close
    /// it; the part with the next index is the open one from now on.
    Close { part: u32, tail: Vec<u8> },
}

/// Why splitting stopped.
#[derive(Debug)]
pub enum SplitError {
    /// The input is not a well-formed gzip stream.
    Input(std::io::Error),
    /// A line of the input is not text.
    NotText,
    /// A part's gzip stream failed.
    Output(std::io::Error),
    /// No index is left for another part.
    TooManyParts,
    /// The input has already ended.
    Finished,
}

/// What a splitter stands for.
pub struct SplitState {
    /// The plain bytes decoded so far.
    pub decoded: Seq<u8>,
    /// The lines read so far, each written to a part.
    pub lines: Seq<Seq<u8>>,
    /// The lines of each closed part, by index.
    pub closed: Seq<Seq<Seq<u8>>>,
    /// Whether the input has ended.
    pub done: bool,
    /// The compressed input taken so far.
    pub fed: Seq<u8>,
    /// Whether the gzip member has ended; later input is ignored.
    pub member_ended: bool,
    /// The lines written to the parts so far, in order.
    pub written: Seq<Seq<u8>>,
    /// The complete file of each closed part, by index.
    pub files: Seq<Seq<u8>>,
    /// The bytes of the open part's file handed out so far.
    pub open_file: Seq<u8>,
}

/// The number of `Close` items in `es`.
pub open spec fn closes(es: Seq<Emit>) -> nat
    decreases es.len(),
{
    if es.len() == 0 {
        0
    } else {
        closes(es.drop_last()) + if es.last() is Close { 1nat } else { 0nat }
    }
}

/// Decoding the parts and concatenating them in index order gives back the
/// decoded input, where the parts hold its lines: exactly, or with one newline
/// added after a last line that had none.
pub proof fn lemma_round_trip(decoded: Seq<u8>, parts: Seq<Seq<Seq<u8>>>)
    requires
        lines_of(decoded, concat_parts(parts)),
    ensures
        part_bytes(parts) == decoded || (decoded.len() > 0 && decoded.last() != NEWLINE
            && part_bytes(parts) == decoded.push(NEWLINE)),
{
    let ls = concat_parts(parts);
    lemma_parts_rejoin(parts);
    if join_lines(ls) != decoded {
        let last = ls.last();
        assert(no_newline(ls[ls.len() - 1]));
        assert(join_lines(ls) == join_lines(ls.drop_last()) + last + seq![NEWLINE]);
        assert(decoded =~= join_lines(ls).drop_last());
        assert(join_lines(ls).drop_last() =~= join_lines(ls.drop_last()) + last);
        assert(decoded.last() == last.last());
    }
}

/// The decoded contents of `files`, one after another.
pub open spec fn unzip_files(files: Seq<Seq<u8>>) -> Seq<u8>
    decreases files.len(),
{
    if files.len() == 0 {
        Seq::empty()
    } else {
        unzip_files(files.drop_last()) + gunzip_member(files.last()).unwrap_or(Seq::empty())
    }
}

/// Decoding the part files in index order and concatenating them gives back
/// the decoded input: exactly, or with one newline added after a last line
/// that had none.
pub proof fn lemma_files_round_trip(decoded: Seq<u8>, files: Seq<Seq<u8>>, parts: Seq<Seq<Seq<u8>>>)
    requires
        files_hold(files, parts),
        lines_of(decoded, concat_parts(parts)),
    ensures
        unzip_files(files) == decoded || (decoded.len() > 0 && decoded.last() != NEWLINE
            && unzip_files(files) == decoded.push(NEWLINE)),
{
    lemma_files_parts(files, parts);
    lemma_round_trip(decoded, parts);
}

proof fn lemma_files_parts(files: Seq<Seq<u8>>, parts: Seq<Seq<Seq<u8>>>)
    requires
        files_hold(files, parts),
    ensures
        unzip_files(files) == part_bytes(parts),
    decreases files.len(),
{
    if files.len() > 0 {
        let (f, p) = (files.drop_last(), parts.drop_last());
        assert forall|i: int| 0 <= i < f.len() implies gunzip_member(#[trigger] f[i]) == Some(
            join_lines(p[i]),
        ) by {
            assert(f[i] == files[i]);
        }
        lemma_files_parts(f, p);
        assert(gunzip_member(files[files.len() - 1]) == Some(join_lines(parts.last())));
    }
}

/// Parts hold their lines in order: none holds more lines than all together.
proof fn lemma_part_within(ps: Seq<Seq<Seq<u8>>>, i: int)
    requires
        0 <= i < ps.len(),
    ensures
        ps[i].len() <= concat_parts(ps).len(),
    decreases ps.len(),
{
    if i < ps.len() - 1 {
        lemma_part_within(ps.drop_last(), i);
    }
}

/// Fewer lines than a checkpoint's worth are never measured, so they stay in
/// a single part.
pub proof fn lemma_short_input_one_part(parts: Seq<Seq<Seq<u8>>>)
    requires
        parts.len() >= 1,
        full_parts(parts.drop_last()),
        concat_parts(parts).len() < CHECKPOINT_LINES,
    ensures
        parts.len() == 1,
{
    lemma_part_within(parts, 0);
    if parts.len() > 1 {
        assert(parts.drop_last()[0] == parts[0]);
    }
}

/// An empty input gives exactly one part; it holds no line, and its file is
/// one gzip member that decodes to nothing.
pub proof fn lemma_empty_input_one_part(parts: Seq<Seq<Seq<u8>>>, files: Seq<Seq<u8>>)
    requires
        parts.len() >= 1,
        lines_of(Seq::empty(), concat_parts(parts)),
        full_parts(parts.drop_last()),
        files_hold(files, parts),
    ensures
        parts.len() == 1,
        parts[0].len() == 0,
        files.len() == 1,
        gunzip_member(files[0]) == Some(Seq::<u8>::empty()),
{
    let ls = concat_parts(parts);
    if ls.len() > 0 {
        assert(join_lines(ls) == join_lines(ls.drop_last()) + ls.last() + seq![NEWLINE]);
        assert(join_lines(ls).len() > 0);
        assert(false);
    }
    lemma_short_input_one_part(parts);
    lemma_part_within(parts, 0);
    assert(join_lines(parts[0]) =~= Seq::<u8>::empty());
}

/// Each `Close` of `es` names the part that is open at it: parts are closed
/// one after another, by index, from `start` on.
pub open spec fn numbered(es: Seq<Emit>, start: nat) -> bool
    decreases es.len(),
{
    if es.len() == 0 {
        true
    } else {
        &&& numbered(es.drop_last(), start)
        &&& (es.last() matches Emit::Close { part, .. } ==> part == start + closes(es.drop_last()))
    }
}

/// Numbering carries from one call to the next: over a whole run, the
/// `Close` items in order name the parts `start`, `start + 1`, ... without
/// gaps, where each call's items are numbered from the parts closed before it.
pub proof fn lemma_numbered_append(a: Seq<Emit>, b: Seq<Emit>, start: nat)
    requires
        numbered(a, start),
        numbered(b, start + closes(a)),
    ensures
        numbered(a + b, start),
        closes(a + b) == closes(a) + closes(b),
    decreases b.len(),
{
    if b.len() == 0 {
        assert(a + b =~= a);
    } else {
        lemma_numbered_append(a, b.drop_last(), start);
        assert((a + b).drop_last() =~= a + b.drop_last());
    }
}

/// The files of the closed parts and the open part's file after `es` is
/// applied to `files` and `open`: `Data` extends the open file, `Close`
/// completes it and starts the next one empty.
pub open spec fn emit_files(files: Seq<Seq<u8>>, open: Seq<u8>, es: Seq<Emit>) -> (Seq<Seq<u8>>, Seq<u8>)
    decreases es.len(),
{
    if es.len() == 0 {
        (files, open)
    } else {
        let (f, o) = emit_files(files, open, es.drop_last());
        match es.last() {
            Emit::Data(b) => (f, o + b@),
            Emit::Close { part, tail } => (f.push(o + tail@), Seq::empty()),
        }
    }
}

/// Each file of `files` is one gzip member holding the lines of the part of
/// `parts` with its index, each followed by a newline.
pub open spec fn files_hold(files: Seq<Seq<u8>>, parts: Seq<Seq<Seq<u8>>>) -> bool {
    &&& files.len() == parts.len()
    &&& forall|i: int|
        0 <= i < files.len() ==> gunzip_member(#[trigger] files[i]) == Some(join_lines(parts[i]))
}

pub struct GzSplit {
    source: LineSource,
    pipeline: Pipeline,
    done: bool,
    files: Ghost<Seq<Seq<u8>>>,
}

impl View for GzSplit {
    type V = SplitState;

    closed spec fn view(&self) -> SplitState {
        SplitState {
            decoded: self.source@.decoded,
            lines: self.source@.lines,
            closed: self.pipeline@.closed,
            done: self.done,
            fed: self.source@.fed,
            member_ended: self.source@.ended,
            written: lines_in(self.pipeline@),
            files: self.files@,
            open_file: self.pipeline@.emitted,
        }
    }
}

fn from_pipeline(e: PipelineError) -> (r: SplitError)
    ensures
        e is TooManyParts <==> r is TooManyParts,
        e is Output <==> r is Output,
{
    match e {
        PipelineError::Output(e) => SplitError::Output(e),
        PipelineError::TooManyParts => SplitError::TooManyParts,
    }
}

fn from_source(e: SourceError) -> (r: SplitError)
    ensures
        e is NotText <==> r is NotText,
        e is Input <==> r is Input,
{
    match e {
        SourceError::Input(e) => SplitError::Input(e),
        SourceError::NotText => SplitError::NotText,
    }
}

impl GzSplit {
    pub closed spec fn wf(&self) -> bool {
        &&& !self.done ==> self.source.wf() && self.pipeline.wf()
        &&& lines_in(self.pipeline@) == self.source@.lines
        &&& files_hold(self.files@, self.pipeline@.closed)
    }

    /// A splitter with part 0 open and empty, for parts closed once
    /// measured at `target` bytes or more.
    pub fn new(target: u64) -> (r: GzSplit)
        ensures
            r.wf(),
            r@ == (SplitState {
                decoded: Seq::empty(),
                lines: Seq::empty(),
                closed: Seq::empty(),
                done: false,
                fed: Seq::empty(),
                member_ended: false,
                written: Seq::empty(),
                files: Seq::empty(),
                open_file: Seq::empty(),
            }),
    {
        let r = GzSplit {
            source: LineSource::new(),
            pipeline: Pipeline::new(target),
            done: false,
            files: Ghost(Seq::empty()),
        };
        assert(lines_in(r.pipeline@) =~= Seq::<Seq<u8>>::empty());
        r
    }

    /// Index of the open part.
    pub fn part_index(&self) -> (r: u32)
        requires
            self.wf(),
            !self@.done,
        ensures
            r as nat == self@.closed.len(),
    {
        self.pipeline.part_index()
    }

    /// Writes `ls` to the parts, in order, and appends what is due to the
    /// files to `out`.
    fn push_all(&mut self, ls: Vec<Vec<u8>>, out: &mut Vec<Emit>, start: Ghost<nat>) -> (r: Result<
        (),
        SplitError,
    >)
        requires
            old(self).pipeline.wf(),
            all_lines(views(ls@)),
            files_hold(old(self).files@, old(self).pipeline@.closed),
            old(out)@.len() == 0,
        ensures
            files_hold(final(self).files@, final(self).pipeline@.closed),
            r is Ok ==> emit_files(old(self).files@, old(self).pipeline@.emitted, final(out)@) == (
                final(self).files@,
                final(self).pipeline@.emitted,
            ),
            r is Ok ==> final(self).pipeline.wf() && lines_in(final(self).pipeline@) == lines_in(
                old(self).pipeline@,
            ) + views(ls@),
            final(self).source == old(self).source,
            final(self).done == old(self).done,
            old(self).pipeline@.closed.is_prefix_of(final(self).pipeline@.closed),
            r is Ok ==> final(self).pipeline@.closed.len() - old(self).pipeline@.closed.len()
                == closes(final(out)@) - closes(old(out)@),
            numbered(old(out)@, start as nat) && old(self).pipeline@.closed.len() == start
                + closes(old(out)@) ==> numbered(final(out)@, start as nat),
            r is Err ==> (r matches Err(SplitError::TooManyParts)),
            r is Err ==> final(self).pipeline@.closed.len() == u32::MAX,
    {
        let mut i: usize = 0;
        while i < ls.len()
            invariant
                self.pipeline.wf(),
                self.source == old(self).source,
                self.done == old(self).done,
                files_hold(self.files@, self.pipeline@.closed),
                emit_files(old(self).files@, old(self).pipeline@.emitted, out@) == (
                    self.files@,
                    self.pipeline@.emitted,
                ),
                0 <= i <= ls@.len(),
                all_lines(views(ls@)),
                lines_in(self.pipeline@) == lines_in(old(self).pipeline@) + views(ls@).subrange(
                    0,
                    i as int,
                ),
                old(self).pipeline@.closed.is_prefix_of(self.pipeline@.closed),
                self.pipeline@.closed.len() - old(self).pipeline@.closed.len() == closes(out@)
                    - closes(old(out)@),
                numbered(old(out)@, start@) && old(self).pipeline@.closed.len() == start@ + closes(
                    old(out)@,
                ) ==> numbered(out@, start@),
            decreases ls@.len() - i,
        {
            assert(views(ls@)[i as int] == ls@[i as int]@);
            let ghost before = self.pipeline@;
            let ghost out_before = out@;
            let ghost old_files = self.files@;
            let part = self.pipeline.part_index();
            match self.pipeline.push_line(ls[i].as_slice()) {
                Ok(Pushed::Written) => {},
                Ok(Pushed::Checked { size, out: bytes }) => {
                    out.push(Emit::Data(bytes));
                    assert(out@.drop_last() =~= out_before);
                },
                Ok(Pushed::RolledOver { size, tail }) => {
                    let ghost file = before.emitted + tail@;
                    out.push(Emit::Close { part, tail });
                    assert(out@.drop_last() =~= out_before);
                    self.files = Ghost(self.files@.push(file));
                    assert(files_hold(self.files@, self.pipeline@.closed)) by {
                        assert forall|k: int| 0 <= k < self.files@.len() implies gunzip_member(
                            #[trigger] self.files@[k],
                        ) == Some(join_lines(self.pipeline@.closed[k])) by {
                            if k < before.closed.len() {
                                assert(self.files@[k] == old_files[k]);
                            }
                        }
                    }
                },
                Err(e) => {
                    return Err(from_pipeline(e));
                },
            }
            assert(views(ls@).subrange(0, i + 1) =~= views(ls@).subrange(0, i as int).push(
                ls@[i as int]@,
            ));
            i = i + 1;
        }
        assert(views(ls@).subrange(0, ls@.len() as int) =~= views(ls@));
        Ok(())
    }

    /// Feeds the next compressed bytes of the input. The lines that they
    /// complete go to the parts; what is due to the part files is returned.
    pub fn feed(&mut self, chunk: &[u8]) -> (r: Result<Vec<Emit>, SplitError>)
        requires
            old(self).wf(),
        ensures
            r is Ok ==> final(self).wf() && !final(self)@.done,
            old(self)@.lines.is_prefix_of(final(self)@.lines),
            old(self)@.closed.is_prefix_of(final(self)@.closed),
            r matches Ok(es) ==> final(self)@.closed.len() == old(self)@.closed.len() + closes(
                es@,
            ) && numbered(es@, old(self)@.closed.len()),
            r matches Ok(es) ==> emit_files(old(self)@.files, old(self)@.open_file, es@) == (
                final(self)@.files,
                final(self)@.open_file,
            ) && files_hold(final(self)@.files, final(self)@.closed),
            r matches Err(SplitError::Input(_)) ==> final(self)@.written == old(self)@.written,
            r matches Err(SplitError::NotText) ==> final(self)@.written == old(self)@.written,
            r matches Err(SplitError::Finished) <==> old(self)@.done,
            r is Ok ==> final(self)@.fed == old(self)@.fed + chunk@ || (final(self)@.member_ended
                && old(self)@.fed.is_prefix_of(final(self)@.fed)),
            !(r matches Err(SplitError::Output(_))),
            r matches Err(SplitError::TooManyParts) ==> final(self)@.closed.len() == u32::MAX,
            r matches Err(SplitError::NotText) ==> !all_text(
                final(self)@.lines.subrange(
                    old(self)@.lines.len() as int,
                    final(self)@.lines.len() as int,
                ),
            ),
            r matches Err(SplitError::Input(_)) ==> !old(self)@.member_ended && chunk@.len() > 0
                && final(self)@.fed == old(self)@.fed + chunk@ && gunzip_member(
                final(self)@.fed,
            ) is None,
    {
        if self.done {
            return Err(SplitError::Finished);
        }
        let mut out: Vec<Emit> = Vec::new();
        let ls = match self.source.feed(chunk) {
            Ok(ls) => ls,
            Err(e) => return Err(from_source(e)),
        };
        self.push_all(ls, &mut out, Ghost(old(self)@.closed.len()))?;
        Ok(out)
    }

    /// Ends the input. The last lines go to the parts, and the open part is
    /// closed: the returned items end with its `Close`. On success the parts,
    /// in index order, hold the lines of the whole decoded input.
    pub fn finish(&mut self) -> (r: Result<Vec<Emit>, SplitError>)
        requires
            old(self).wf(),
        ensures
            r is Ok ==> final(self).wf() && final(self)@.done,
            r matches Err(SplitError::Finished) <==> old(self)@.done,
            old(self)@.lines.is_prefix_of(final(self)@.lines),
            old(self)@.closed.is_prefix_of(final(self)@.closed),
            r matches Ok(es) ==> es@.len() > 0 && es@.last() is Close
                && final(self)@.closed.len() == old(self)@.closed.len() + closes(es@)
                && numbered(es@, old(self)@.closed.len())
                && emit_files(old(self)@.files, old(self)@.open_file, es@) == (
                final(self)@.files,
                Seq::<u8>::empty(),
            ) && files_hold(final(self)@.files, final(self)@.closed)
                && lines_of(final(self)@.decoded, final(self)@.lines)
                && concat_parts(final(self)@.closed) == final(self)@.lines
                && full_parts(final(self)@.closed.drop_last()),
            !(r matches Err(SplitError::Output(_))),
            r matches Err(SplitError::TooManyParts) ==> final(self)@.closed.len() == u32::MAX,
            r matches Err(SplitError::NotText) ==> !all_text(
                final(self)@.lines.subrange(
                    old(self)@.lines.len() as int,
                    final(self)@.lines.len() as int,
                ),
            ),
            r matches Err(SplitError::Input(_)) ==> gunzip_member(final(self)@.fed) is None
                && final(self)@.written == old(self)@.written,
            r matches Err(SplitError::NotText) ==> final(self)@.written == old(self)@.written,
            !old(self)@.done ==> ((r is Ok || r matches Err(SplitError::NotText) || r matches Err(
                SplitError::TooManyParts,
            )) <==> gunzip_member(old(self)@.fed) is Some),
            r is Ok ==> gunzip_member(final(self)@.fed) == Some(final(self)@.decoded),
    {
        if self.done {
            return Err(SplitError::Finished);
        }
        let mut out: Vec<Emit> = Vec::new();
        let ls = match self.source.finish() {
            Ok(ls) => ls,
            Err(e) => return Err(from_source(e)),
        };
        self.push_all(ls, &mut out, Ghost(old(self)@.closed.len()))?;
        let ghost out_before = out@;
        let ghost before_fin = self.pipeline@;
        let part = self.pipeline.part_index();
        proof {
            self.pipeline.lemma_closed_parts_full();
        }
        match self.pipeline.finish() {
            Ok(tail) => {
                let ghost file = before_fin.emitted + tail@;
                let ghost old_files = self.files@;
                out.push(Emit::Close { part, tail });
                assert(out@.drop_last() =~= out_before);
                self.files = Ghost(self.files@.push(file));
                assert(files_hold(self.files@, self.pipeline@.closed)) by {
                    assert forall|k: int| 0 <= k < self.files@.len() implies gunzip_member(
                        #[trigger] self.files@[k],
                    ) == Some(join_lines(self.pipeline@.closed[k])) by {
                        if k < before_fin.closed.len() {
                            assert(self.files@[k] == old_files[k]);
                        }
                    }
                }
                self.done = true;
                assert(concat_parts(self@.closed) =~= lines_in(self.pipeline@));
                assert(self@.closed.drop_last() =~= before_fin.closed);
                Ok(out)
            },
            Err(e) => Err(from_pipeline(e)),
        }
    }
}

} // verus!
