use vstd::prelude::*;

use crate::lines::NEWLINE;
use crate::lines::frame_line;
use crate::lines::joined_lines;
use crate::lines::views_of;

verus! {

/// The first index at or after `i` holding a newline byte, or the length of
/// `s` when none is left.
pub open spec fn first_nl(s: Seq<u8>, i: int) -> int
    decreases s.len() - i,
{
    if i < 0 || i >= s.len() {
        s.len() as int
    } else if s[i] == NEWLINE {
        i
    } else {
        first_nl(s, i + 1)
    }
}

pub proof fn lemma_first_nl(s: Seq<u8>, i: int)
    requires
        0 <= i <= s.len(),
    ensures
        i <= first_nl(s, i) <= s.len(),
        first_nl(s, i) < s.len() ==> s[first_nl(s, i)] == NEWLINE,
        forall|j: int| i <= j < first_nl(s, i) ==> s[j] != NEWLINE,
    decreases s.len() - i,
{
    if i < s.len() && s[i] != NEWLINE {
        lemma_first_nl(s, i + 1);
    }
}

/// If the first `k` bytes hold no newline and byte `k` is one (or the text
/// ends at `k`), then `k` is where the first line ends.
pub proof fn lemma_first_nl_at(s: Seq<u8>, k: int)
    requires
        0 <= k <= s.len(),
        forall|j: int| 0 <= j < k ==> s[j] != NEWLINE,
        k < s.len() ==> s[k] == NEWLINE,
    ensures
        first_nl(s, 0) == k,
{
    lemma_first_nl(s, 0);
    let f = first_nl(s, 0);
    if f < k {
        assert(s[f] != NEWLINE);
        assert(false);
    }
    if f > k {
        assert(s[k] != NEWLINE);
        assert(false);
    }
}

/// The entries stored in a history file: text between newline bytes, with a
/// trailing piece that lacks its newline still counting as an entry.
pub open spec fn split_lines(s: Seq<u8>) -> Seq<Seq<u8>>
    decreases s.len(),
{
    if s.len() == 0 {
        Seq::empty()
    } else {
        let i = first_nl(s, 0);
        if 0 <= i < s.len() {
            seq![s.take(i)] + split_lines(s.skip(i + 1))
        } else {
            seq![s]
        }
    }
}

/// Joining lines reads the same from the front: the first entry, its
/// newline, then the rest.
proof fn lemma_joined_cons(lines: Seq<Seq<u8>>)
    requires
        lines.len() >= 1,
    ensures
        joined_lines(lines) == lines[0].push(NEWLINE) + joined_lines(lines.skip(1)),
    decreases lines.len(),
{
    if lines.len() == 1 {
        assert(lines.drop_last() =~= Seq::<Seq<u8>>::empty());
        assert(lines.skip(1) =~= Seq::<Seq<u8>>::empty());
        assert(joined_lines(lines) =~= lines[0].push(NEWLINE) + joined_lines(lines.skip(1)));
    } else {
        lemma_joined_cons(lines.drop_last());
        assert(lines.drop_last()[0] == lines[0]);
        assert(lines.drop_last().skip(1) =~= lines.skip(1).drop_last());
        assert(lines.skip(1).last() == lines.last());
        assert(joined_lines(lines) == joined_lines(lines.drop_last()) + lines.last().push(
            NEWLINE,
        ));
        assert(joined_lines(lines) =~= lines[0].push(NEWLINE) + (joined_lines(
            lines.skip(1).drop_last(),
        ) + lines.skip(1).last().push(NEWLINE)));
    }
}

pub open spec fn newline_free(lines: Seq<Seq<u8>>) -> bool {
    forall|i: int| 0 <= i < lines.len() ==> !(#[trigger] lines[i]).contains(NEWLINE)
}

/// Writing a history out as lines and reading it back yields the same
/// entries, as long as no entry itself contains a newline byte.
pub proof fn lemma_history_round_trip(lines: Seq<Seq<u8>>)
    requires
        newline_free(lines),
    ensures
        split_lines(joined_lines(lines)) == lines,
    decreases lines.len(),
{
    if lines.len() == 0 {
        assert(split_lines(joined_lines(lines)) =~= lines);
    } else {
        let e0 = lines[0];
        let s = joined_lines(lines);
        lemma_joined_cons(lines);
        assert(s == e0.push(NEWLINE) + joined_lines(lines.skip(1)));
        let k = e0.len() as int;
        assert forall|j: int| 0 <= j < k implies s[j] != NEWLINE by {
            assert(s[j] == e0[j]);
            assert(!e0.contains(NEWLINE));
            if e0[j] == NEWLINE {
                assert(e0.contains(NEWLINE));
            }
        }
        assert(s[k] == NEWLINE);
        assert(k < s.len());
        lemma_first_nl_at(s, k);
        assert(s.take(k) =~= e0);
        assert(s.skip(k + 1) =~= joined_lines(lines.skip(1)));
        assert(newline_free(lines.skip(1)));
        lemma_history_round_trip(lines.skip(1));
        assert(split_lines(s) == seq![e0] + lines.skip(1));
        assert(seq![e0] + lines.skip(1) =~= lines);
    }
}

/// The ordered lines a user has entered at this endpoint's prompt, loaded
/// from disk at startup and written back at exit. Append-only during a
/// session.
pub struct HistoryStore {
    items: Vec<Vec<u8>>,
}

impl HistoryStore {
    /// The entries, oldest first.
    pub closed spec fn entries(self) -> Seq<Seq<u8>> {
        views_of(self.items@)
    }

    pub fn new() -> (r: HistoryStore)
        ensures
            r.entries() == Seq::<Seq<u8>>::empty(),
    {
        let r = HistoryStore { items: Vec::new() };
        proof {
            assert(r.entries() =~= Seq::<Seq<u8>>::empty());
        }
        r
    }

    /// Appends one submitted line; nothing already recorded changes.
    pub fn add(&mut self, line: Vec<u8>)
        ensures
            final(self).entries() == old(self).entries().push(line@),
    {
        let ghost before = self.items@;
        self.items.push(line);
        proof {
            assert(views_of(before.push(line)) =~= views_of(before).push(line@));
        }
    }

    pub fn count(&self) -> (r: usize)
        ensures
            r == self.entries().len(),
    {
        self.items.len()
    }

    pub fn entry(&self, i: usize) -> (r: &Vec<u8>)
        requires
            i < self.entries().len(),
        ensures
            r@ == self.entries()[i as int],
    {
        &self.items[i]
    }

    /// The bytes written to the history file: every entry followed by one
    /// newline, oldest first.
    pub fn render(&self) -> (r: Vec<u8>)
        ensures
            r@ == joined_lines(self.entries()),
    {
        let mut out: Vec<u8> = Vec::new();
        let mut k: usize = 0;
        while k < self.items.len()
            invariant
                k <= self.items@.len(),
                out@ == joined_lines(self.entries().take(k as int)),
                self.entries().len() == self.items@.len(),
            decreases self.items@.len() - k,
        {
            let mut framed = frame_line(&self.items[k]);
            proof {
                assert(self.entries().take(k + 1 as int).drop_last() =~= self.entries().take(
                    k as int,
                ));
                assert(self.entries().take(k + 1 as int).last() == self.entries()[k as int]);
            }
            out.append(&mut framed);
            k = k + 1;
        }
        proof {
            assert(self.entries().take(self.entries().len() as int) =~= self.entries());
        }
        out
    }

    /// Reads a history file back into entries: one entry per line.
    pub fn parse(data: &Vec<u8>) -> (r: HistoryStore)
        ensures
            r.entries() == split_lines(data@),
    {
        let mut items: Vec<Vec<u8>> = Vec::new();
        let mut cur: Vec<u8> = Vec::new();
        let mut p: usize = 0;
        let mut i: usize = 0;
        proof {
            assert(data@.skip(0) =~= data@);
            assert(views_of(items@) =~= Seq::<Seq<u8>>::empty());
            assert(views_of(items@) + split_lines(data@) =~= split_lines(data@));
            assert(cur@ =~= data@.subrange(0, 0));
        }
        while i < data.len()
            invariant
                0 <= p <= i <= data@.len(),
                cur@ == data@.subrange(p as int, i as int),
                forall|j: int| p <= j < i ==> data@[j] != NEWLINE,
                split_lines(data@) == views_of(items@) + split_lines(data@.skip(p as int)),
            decreases data@.len() - i,
        {
            let b = data[i];
            if b == NEWLINE {
                proof {
                    let tail = data@.skip(p as int);
                    assert forall|j: int| 0 <= j < i - p implies tail[j] != NEWLINE by {
                        assert(tail[j] == data@[j + p]);
                    }
                    assert(tail[i - p] == NEWLINE);
                    lemma_first_nl_at(tail, i - p);
                    assert(tail.take(i - p) =~= cur@);
                    assert(tail.skip(i - p + 1) =~= data@.skip(i + 1 as int));
                    assert(split_lines(tail) == seq![cur@] + split_lines(
                        data@.skip(i + 1 as int),
                    ));
                    assert(views_of(items@.push(cur)) =~= views_of(items@).push(cur@));
                    assert(views_of(items@) + split_lines(tail) =~= views_of(items@.push(cur))
                        + split_lines(data@.skip(i + 1 as int)));
                }
                items.push(cur);
                cur = Vec::new();
                p = i + 1;
                proof {
                    assert(cur@ =~= data@.subrange(p as int, i + 1 as int));
                }
            } else {
                cur.push(b);
                proof {
                    assert(cur@ =~= data@.subrange(p as int, i + 1 as int));
                }
            }
            i = i + 1;
        }
        if cur.len() > 0 {
            proof {
                let tail = data@.skip(p as int);
                assert(tail =~= cur@);
                assert forall|j: int| 0 <= j < tail.len() implies tail[j] != NEWLINE by {
                    assert(tail[j] == data@[j + p]);
                }
                lemma_first_nl_at(tail, tail.len() as int);
                assert(split_lines(tail) == seq![tail]);
                assert(views_of(items@.push(cur)) =~= views_of(items@).push(cur@));
                assert(views_of(items@) + split_lines(tail) =~= views_of(items@.push(cur)));
            }
            items.push(cur);
        } else {
            proof {
                assert(data@.skip(p as int) =~= Seq::<u8>::empty());
                assert(split_lines(data@.skip(p as int)) =~= Seq::<Seq<u8>>::empty());
                assert(views_of(items@) + split_lines(data@.skip(p as int)) =~= views_of(
                    items@,
                ));
            }
        }
        let r = HistoryStore { items };
        r
    }
}

} // verus!
