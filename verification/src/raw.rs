use vstd::prelude::*;

use crate::history::first_nl;
use crate::history::lemma_first_nl;
use crate::history::lemma_first_nl_at;
use crate::lines::NEWLINE;
use crate::lines::copy_bytes;
use crate::lines::views_of;

verus! {

/// The complete lines, newline included, at the front of a byte sequence.
pub open spec fn raw_lines(s: Seq<u8>) -> Seq<Seq<u8>>
    decreases s.len(),
{
    let f = first_nl(s, 0);
    if 0 <= f < s.len() {
        seq![s.take(f + 1)] + raw_lines(s.skip(f + 1))
    } else {
        Seq::empty()
    }
}

/// What remains after the last complete line: a tail without a newline.
pub open spec fn raw_rest(s: Seq<u8>) -> Seq<u8>
    decreases s.len(),
{
    let f = first_nl(s, 0);
    if 0 <= f < s.len() {
        raw_rest(s.skip(f + 1))
    } else {
        s
    }
}

pub open spec fn concat_bytes(chunks: Seq<Seq<u8>>) -> Seq<u8>
    decreases chunks.len(),
{
    if chunks.len() == 0 {
        Seq::empty()
    } else {
        chunks[0] + concat_bytes(chunks.skip(1))
    }
}

/// Raw mode is an identity transform: the lines handed to the console,
/// concatenated with the bytes still waiting for their newline, are exactly
/// the bytes that came off the wire.
pub proof fn lemma_raw_identity(s: Seq<u8>)
    ensures
        concat_bytes(raw_lines(s)) + raw_rest(s) == s,
    decreases s.len(),
{
    lemma_first_nl(s, 0);
    let f = first_nl(s, 0);
    if 0 <= f < s.len() {
        lemma_raw_identity(s.skip(f + 1));
        assert((seq![s.take(f + 1)] + raw_lines(s.skip(f + 1))).skip(1) =~= raw_lines(
            s.skip(f + 1),
        ));
        assert(concat_bytes(raw_lines(s)) == s.take(f + 1) + concat_bytes(
            raw_lines(s.skip(f + 1)),
        ));
        assert(s.take(f + 1) + (concat_bytes(raw_lines(s.skip(f + 1))) + raw_rest(
            s.skip(f + 1),
        )) =~= s);
        assert(concat_bytes(raw_lines(s)) + raw_rest(s) =~= s.take(f + 1) + (concat_bytes(
            raw_lines(s.skip(f + 1)),
        ) + raw_rest(s.skip(f + 1))));
    } else {
        assert(raw_lines(s) =~= Seq::<Seq<u8>>::empty());
        assert(concat_bytes(raw_lines(s)) + raw_rest(s) =~= s);
    }
}

/// A single line as raw mode prints it: it ends with the newline that
/// completed it and holds no other newline.
pub open spec fn one_line(l: Seq<u8>) -> bool {
    &&& l.len() >= 1
    &&& l.last() == NEWLINE
    &&& forall|j: int| 0 <= j < l.len() - 1 ==> l[j] != NEWLINE
}

/// Raw-mode output is re-chunked only at line boundaries: every piece
/// handed to the console is one received line, and what stays pending has
/// no newline yet.
pub proof fn lemma_raw_lines_shape(s: Seq<u8>)
    ensures
        forall|k: int| 0 <= k < raw_lines(s).len() ==> one_line(#[trigger] raw_lines(s)[k]),
        forall|j: int| 0 <= j < raw_rest(s).len() ==> raw_rest(s)[j] != NEWLINE,
    decreases s.len(),
{
    lemma_first_nl(s, 0);
    let f = first_nl(s, 0);
    if 0 <= f < s.len() {
        lemma_raw_lines_shape(s.skip(f + 1));
        let first = s.take(f + 1);
        assert(first.last() == s[f]);
        assert forall|j: int| 0 <= j < first.len() - 1 implies first[j] != NEWLINE by {
            assert(first[j] == s[j]);
        }
        assert(one_line(first));
        assert forall|k: int| 0 <= k < raw_lines(s).len() implies one_line(
            #[trigger] raw_lines(s)[k],
        ) by {
            if k == 0 {
                assert(raw_lines(s)[0] == first);
            } else {
                assert(raw_lines(s)[k] == raw_lines(s.skip(f + 1))[k - 1]);
            }
        }
        assert(raw_rest(s) == raw_rest(s.skip(f + 1)));
        assert forall|j: int| 0 <= j < raw_rest(s).len() implies raw_rest(s)[j] != NEWLINE by {
            assert(raw_rest(s)[j] == raw_rest(s.skip(f + 1))[j]);
        }
    } else {
        assert forall|j: int| 0 <= j < raw_rest(s).len() implies raw_rest(s)[j] != NEWLINE by {
            assert(raw_rest(s) == s);
            assert(s[j] != NEWLINE);
        }
    }
}

/// The raw-mode half of the Inbound Printer: it buffers inbound bytes and
/// hands back console output one received line at a time, changing nothing.
pub struct RawPrinter {
    buf: Vec<u8>,
}

impl RawPrinter {
    /// Bytes received but not yet printed, because their line is not
    /// complete yet.
    pub closed spec fn pending(self) -> Seq<u8> {
        self.buf@
    }

    pub fn new() -> (r: RawPrinter)
        ensures
            r.pending() == Seq::<u8>::empty(),
    {
        RawPrinter { buf: Vec::new() }
    }

    /// Takes one chunk read from the transport and returns every line that
    /// is now complete, exactly as received; the tail of an unfinished line
    /// stays pending.
    pub fn feed(&mut self, chunk: &Vec<u8>) -> (out: Vec<Vec<u8>>)
        ensures
            views_of(out@) == raw_lines(old(self).pending() + chunk@),
            final(self).pending() == raw_rest(old(self).pending() + chunk@),
    {
        let ghost s: Seq<u8> = self.buf@ + chunk@;
        let mut work: Vec<u8> = Vec::new();
        std::mem::swap(&mut work, &mut self.buf);
        let mut extra = copy_bytes(chunk);
        work.append(&mut extra);
        let mut out: Vec<Vec<u8>> = Vec::new();
        let mut line: Vec<u8> = Vec::new();
        let mut p: usize = 0;
        let mut i: usize = 0;
        proof {
            assert(s.skip(0) =~= s);
            assert(views_of(out@) =~= Seq::<Seq<u8>>::empty());
            assert(views_of(out@) + raw_lines(s) =~= raw_lines(s));
            assert(line@ =~= s.subrange(0, 0));
        }
        while i < work.len()
            invariant
                0 <= p <= i <= work@.len(),
                work@ == s,
                line@ == s.subrange(p as int, i as int),
                forall|j: int| p <= j < i ==> s[j] != NEWLINE,
                raw_lines(s) == views_of(out@) + raw_lines(s.skip(p as int)),
                raw_rest(s) == raw_rest(s.skip(p as int)),
            decreases work@.len() - i,
        {
            let b = work[i];
            line.push(b);
            if b == NEWLINE {
                proof {
                    let tail = s.skip(p as int);
                    assert forall|j: int| 0 <= j < i - p implies tail[j] != NEWLINE by {
                        assert(tail[j] == s[j + p]);
                    }
                    assert(tail[i - p] == NEWLINE);
                    lemma_first_nl_at(tail, i - p);
                    assert(tail.take(i - p + 1) =~= line@);
                    assert(tail.skip(i - p + 1) =~= s.skip(i + 1 as int));
                    assert(raw_lines(tail) == seq![line@] + raw_lines(s.skip(i + 1 as int)));
                    assert(views_of(out@.push(line)) =~= views_of(out@).push(line@));
                    assert(views_of(out@) + raw_lines(tail) =~= views_of(out@.push(line))
                        + raw_lines(s.skip(i + 1 as int)));
                }
                out.push(line);
                line = Vec::new();
                p = i + 1;
                proof {
                    assert(line@ =~= s.subrange(p as int, i + 1 as int));
                }
            } else {
                proof {
                    assert(line@ =~= s.subrange(p as int, i + 1 as int));
                }
            }
            i = i + 1;
        }
        proof {
            let tail = s.skip(p as int);
            assert(tail =~= line@);
            assert forall|j: int| 0 <= j < tail.len() implies tail[j] != NEWLINE by {
                assert(tail[j] == s[j + p]);
            }
            lemma_first_nl_at(tail, tail.len() as int);
            assert(raw_lines(tail) =~= Seq::<Seq<u8>>::empty());
            assert(views_of(out@) + raw_lines(tail) =~= views_of(out@));
            assert(raw_rest(tail) == tail);
        }
        self.buf = line;
        out
    }

    /// Called when the remote has closed: whatever is still pending is
    /// printed as-is, and nothing stays behind.
    pub fn finish(&mut self) -> (out: Vec<u8>)
        ensures
            out@ == old(self).pending(),
            final(self).pending() == Seq::<u8>::empty(),
    {
        let mut out: Vec<u8> = Vec::new();
        std::mem::swap(&mut out, &mut self.buf);
        out
    }
}

} // verus!
