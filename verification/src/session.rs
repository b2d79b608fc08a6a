use vstd::prelude::*;

use crate::history::HistoryStore;
use crate::lines::NEWLINE;
use crate::lines::frame_line;
use crate::lines::joined_lines;
use crate::lines::lemma_transcript_append;

verus! {

/// The foreground half of the client. Each submitted line is recorded in
/// the history and turned into the exact bytes the transport must carry;
/// the ghost transcript ties what was typed to what goes out.
pub struct Session {
    hist: HistoryStore,
    transcript: Ghost<Seq<Seq<u8>>>,
    wire: Ghost<Seq<u8>>,
}

impl Session {
    /// Every line submitted this session, in order.
    pub closed spec fn submitted(self) -> Seq<Seq<u8>> {
        self.transcript@
    }

    /// Every byte this session has put on the wire, in order.
    pub closed spec fn wire_bytes(self) -> Seq<u8> {
        self.wire@
    }

    /// The history as it stands: what was loaded, then every line
    /// submitted this session.
    pub closed spec fn history_entries(self) -> Seq<Seq<u8>> {
        self.hist.entries()
    }

    /// The bytes observed at the remote are exactly the submitted lines,
    /// each followed by one newline byte, in submission order.
    pub closed spec fn wf(self) -> bool {
        self.wire@ == joined_lines(self.transcript@)
    }

    /// Starts a session over a history loaded from disk (or an empty one).
    pub fn new(loaded: HistoryStore) -> (r: Session)
        ensures
            r.wf(),
            r.submitted() == Seq::<Seq<u8>>::empty(),
            r.wire_bytes() == Seq::<u8>::empty(),
            r.history_entries() == loaded.entries(),
    {
        Session { hist: loaded, transcript: Ghost(Seq::empty()), wire: Ghost(Seq::empty()) }
    }

    /// Accepts one submitted line: appends it to the history and returns
    /// the bytes to write, the line's content followed by exactly one
    /// newline. Nothing already sent changes.
    pub fn submit(&mut self, line: Vec<u8>) -> (out: Vec<u8>)
        requires
            old(self).wf(),
        ensures
            final(self).wf(),
            out@ == line@.push(NEWLINE),
            final(self).submitted() == old(self).submitted().push(line@),
            final(self).wire_bytes() == old(self).wire_bytes() + out@,
            final(self).history_entries() == old(self).history_entries().push(line@),
    {
        let out = frame_line(&line);
        proof {
            lemma_transcript_append(self.transcript@, line@);
        }
        let ghost new_transcript = self.transcript@.push(line@);
        let ghost new_wire = self.wire@ + out@;
        self.hist.add(line);
        self.transcript = Ghost(new_transcript);
        self.wire = Ghost(new_wire);
        out
    }

    /// Hands the history back for saving when the session ends.
    pub fn into_history(self) -> (r: HistoryStore)
        ensures
            r.entries() == self.history_entries(),
    {
        let Session { hist, transcript: _, wire: _ } = self;
        hist
    }
}

} // verus!
