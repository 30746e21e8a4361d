//! Line segmentation: bytes split on `\n`, the terminator stripped.

use vstd::prelude::*;

verus! {

pub const NEWLINE: u8 = 10;

/// `b` holds no newline byte.
pub open spec fn no_newline(b: Seq<u8>) -> bool {
    forall|i: int| 0 <= i < b.len() ==> b[i] != NEWLINE
}

/// The bytes of `ls`, each line followed by one newline.
pub open spec fn join_lines(ls: Seq<Seq<u8>>) -> Seq<u8>
    decreases ls.len(),
{
    if ls.len() == 0 {
        Seq::empty()
    } else {
        join_lines(ls.drop_last()) + ls.last() + seq![NEWLINE]
    }
}

/// The byte contents of each buffer of `v`.
pub open spec fn views(v: Seq<Vec<u8>>) -> Seq<Seq<u8>> {
    Seq::new(v.len(), |i: int| v[i]@)
}

/// Every line of `ls` is free of newlines.
pub open spec fn all_lines(ls: Seq<Seq<u8>>) -> bool {
    forall|i: int| 0 <= i < ls.len() ==> no_newline(#[trigger] ls[i])
}

/// Appending a line appends its bytes and one newline.
pub proof fn lemma_join_push(ls: Seq<Seq<u8>>, l: Seq<u8>)
    ensures
        join_lines(ls.push(l)) == join_lines(ls) + l + seq![NEWLINE],
{
    assert(ls.push(l).drop_last() =~= ls);
}

/// Joining two runs of lines is joining each and concatenating.
pub proof fn lemma_join_append(a: Seq<Seq<u8>>, b: Seq<Seq<u8>>)
    ensures
        join_lines(a + b) == join_lines(a) + join_lines(b),
    decreases b.len(),
{
    if b.len() == 0 {
        assert(a + b =~= a);
        assert(join_lines(a) + join_lines(b) =~= join_lines(a));
    } else {
        let c = b.drop_last();
        lemma_join_append(a, c);
        assert((a + b).drop_last() =~= a + c);
        assert(join_lines(a + b) =~= join_lines(a) + join_lines(b));
    }
}

/// The unterminated tail of a byte stream, waiting for its newline.
pub struct LineSplitter {
    pending: Vec<u8>,
}

impl View for LineSplitter {
    type V = Seq<u8>;

    closed spec fn view(&self) -> Seq<u8> {
        self.pending@
    }
}

impl LineSplitter {
    /// A splitter holds no newline in its tail.
    pub closed spec fn wf(&self) -> bool {
        no_newline(self.pending@)
    }

    pub fn new() -> (r: LineSplitter)
        ensures
            r.wf(),
            r@ == Seq::<u8>::empty(),
    {
        LineSplitter { pending: Vec::new() }
    }

    /// Takes the next bytes of the stream and returns the lines that they
    /// complete, in order; what follows the last newline stays in the tail.
    pub fn push_bytes(&mut self, chunk: &[u8]) -> (lines: Vec<Vec<u8>>)
        requires
            old(self).wf(),
        ensures
            final(self).wf(),
            all_lines(views(lines@)),
            old(self)@ + chunk@ == join_lines(views(lines@)) + final(self)@,
    {
        let mut lines: Vec<Vec<u8>> = Vec::new();
        let mut cur: Vec<u8> = Vec::new();
        std::mem::swap(&mut cur, &mut self.pending);
        let ghost start = cur@;
        let mut i: usize = 0;
        while i < chunk.len()
            invariant
                0 <= i <= chunk@.len(),
                no_newline(cur@),
                all_lines(views(lines@)),
                start + chunk@.subrange(0, i as int) == join_lines(views(lines@)) + cur@,
            decreases chunk@.len() - i,
        {
            let b = chunk[i];
            let ghost before = views(lines@);
            let ghost prev = cur@;
            assert(start + chunk@.subrange(0, i + 1) =~= (start + chunk@.subrange(0, i as int)) + seq![b]);
            if b == NEWLINE {
                let mut done: Vec<u8> = Vec::new();
                std::mem::swap(&mut done, &mut cur);
                lines.push(done);
                proof {
                    assert(views(lines@) =~= before.push(done@));
                    lemma_join_push(before, done@);
                    assert(done@ == prev);
                    assert(join_lines(before) + prev + seq![b] =~= join_lines(before.push(done@)) + cur@);
                }
            } else {
                cur.push(b);
                assert(join_lines(before) + prev + seq![b] =~= join_lines(views(lines@)) + cur@);
            }
            i = i + 1;
        }
        assert(chunk@.subrange(0, chunk@.len() as int) =~= chunk@);
        self.pending = cur;
        lines
    }

    /// Ends the stream: the unterminated tail, if there is one, is its last line.
    pub fn finish(self) -> (r: Option<Vec<u8>>)
        requires
            self.wf(),
        ensures
            r is None <==> self@.len() == 0,
            r matches Some(l) ==> l@ == self@ && no_newline(l@),
    {
        if self.pending.len() == 0 {
            None
        } else {
            Some(self.pending)
        }
    }
}

} // verus!
