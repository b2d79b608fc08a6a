use vstd::prelude::*;

verus! {

/// The single byte that terminates every line this client puts on the wire
/// and every entry in the history file.
pub const NEWLINE: u8 = 10;

/// The bytes that a sequence of submitted lines produces: each line's content
/// followed by exactly one newline byte, in submission order.
pub open spec fn joined_lines(lines: Seq<Seq<u8>>) -> Seq<u8>
    decreases lines.len(),
{
    if lines.len() == 0 {
        Seq::empty()
    } else {
        joined_lines(lines.drop_last()) + lines.last().push(NEWLINE)
    }
}

/// Copies a byte vector.
pub fn copy_bytes(src: &Vec<u8>) -> (r: Vec<u8>)
    ensures
        r@ == src@,
{
    let mut out: Vec<u8> = Vec::new();
    let mut i: usize = 0;
    while i < src.len()
        invariant
            i <= src.len(),
            out@ == src@.subrange(0, i as int),
        decreases src.len() - i,
    {
        out.push(src[i]);
        proof {
            assert(out@ =~= src@.subrange(0, i + 1 as int));
        }
        i = i + 1;
    }
    proof {
        assert(src@.subrange(0, src@.len() as int) =~= src@);
    }
    out
}

/// Copies a byte vector without its first `n` bytes.
pub fn drop_prefix(src: &Vec<u8>, n: usize) -> (r: Vec<u8>)
    requires
        n <= src@.len(),
    ensures
        r@ == src@.skip(n as int),
{
    let mut out: Vec<u8> = Vec::new();
    let mut i: usize = n;
    while i < src.len()
        invariant
            n <= i <= src.len(),
            out@ == src@.subrange(n as int, i as int),
        decreases src.len() - i,
    {
        out.push(src[i]);
        proof {
            assert(out@ =~= src@.subrange(n as int, i + 1 as int));
        }
        i = i + 1;
    }
    proof {
        assert(src@.subrange(n as int, src@.len() as int) =~= src@.skip(n as int));
    }
    out
}

/// Appends the single newline byte that terminates a line on the wire.
pub fn frame_line(line: &Vec<u8>) -> (r: Vec<u8>)
    ensures
        r@ == line@.push(NEWLINE),
{
    let mut out = copy_bytes(line);
    out.push(NEWLINE);
    out
}

/// The views of a sequence of byte vectors.
pub open spec fn views_of(s: Seq<Vec<u8>>) -> Seq<Seq<u8>> {
    s.map_values(|v: Vec<u8>| v@)
}

/// Submitting one more line extends the wire bytes by exactly that line's
/// content plus one newline; nothing already sent changes.
pub proof fn lemma_transcript_append(lines: Seq<Seq<u8>>, line: Seq<u8>)
    ensures
        joined_lines(lines.push(line)) == joined_lines(lines) + line.push(NEWLINE),
{
    assert(lines.push(line).drop_last() =~= lines);
    assert(lines.push(line).last() == line);
}

} // verus!
