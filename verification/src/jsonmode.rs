use vstd::prelude::*;

use crate::lines::copy_bytes;
use crate::lines::drop_prefix;

verus! {

/// What one parsing step over the front of a byte sequence yields: a value
/// (as its indented rendering, with how many bytes it took), the end of the
/// input, an input that stops in the middle of a value, or a malformed
/// value.
pub enum JsonStepSpec {
    Val { text: Seq<u8>, used: int },
    End,
    Eof { msg: Seq<u8> },
    Bad { msg: Seq<u8> },
}

/// What serde_json makes of the front of the given bytes (parsing one value
/// and rendering it indented). The outcome depends on the bytes alone.
pub uninterp spec fn json_step_of(s: Seq<u8>) -> JsonStepSpec;

/// The executable counterpart of `JsonStepSpec`.
pub enum JsonStep {
    Value(Vec<u8>, usize),
    End,
    Eof(Vec<u8>),
    Bad(Vec<u8>),
}

/// Relies on serde_json: `Deserializer::from_slice` with
/// `StreamDeserializer::{next, byte_offset}` to take one JSON value off the
/// front of the bytes, `Error::is_eof` to tell a value cut short by the end
/// of the input from a malformed one, and `to_string_pretty` to render the
/// value indented. On a slice the stream deserializer consumes at least one
/// and at most all of the bytes for a parsed value, and rendering a
/// `serde_json::Value` cannot fail, so the unwrap cannot panic. Rendering
/// then parsing is serde_json's documented round trip: the indented text
/// parses back as one value occupying the whole text, and renders to the
/// same text again.
#[verifier::external_body]
fn json_step(input: &Vec<u8>) -> (r: JsonStep)
    ensures
        match r {
            JsonStep::Value(text, used) => {
                &&& json_step_of(input@) == (JsonStepSpec::Val { text: text@, used: used as int })
                &&& 1 <= used <= input@.len()
                &&& json_step_of(text@) == (JsonStepSpec::Val {
                    text: text@,
                    used: text@.len() as int,
                })
            },
            JsonStep::End => json_step_of(input@) == JsonStepSpec::End,
            JsonStep::Eof(m) => json_step_of(input@) == (JsonStepSpec::Eof { msg: m@ }),
            JsonStep::Bad(m) => json_step_of(input@) == (JsonStepSpec::Bad { msg: m@ }),
        },
{
    let de = serde_json::Deserializer::from_slice(input.as_slice());
    let mut stream = de.into_iter::<serde_json::Value>();
    match stream.next() {
        None => JsonStep::End,
        Some(Ok(v)) => {
            let text = serde_json::to_string_pretty(&v).unwrap().into_bytes();
            JsonStep::Value(text, stream.byte_offset())
        },
        Some(Err(e)) if e.is_eof() => JsonStep::Eof(format!("{e}").into_bytes()),
        Some(Err(e)) => JsonStep::Bad(format!("{e}").into_bytes()),
    }
}

/// A byte that can open a JSON value; scanning for one is how the printer
/// gets past malformed input.
pub open spec fn is_value_start(b: u8) -> bool {
    b == 123 || b == 91 || b == 34 || b == 45 || b == 116 || b == 102 || b == 110 || (48 <= b
        <= 57)
}

/// The first index at or after `i` where a JSON value could start, or the
/// length of `s` when there is none.
pub open spec fn next_start_from(s: Seq<u8>, i: int) -> int
    decreases s.len() - i,
{
    if i < 0 || i >= s.len() {
        s.len() as int
    } else if is_value_start(s[i]) {
        i
    } else {
        next_start_from(s, i + 1)
    }
}

pub proof fn lemma_next_start(s: Seq<u8>, i: int)
    requires
        0 <= i <= s.len(),
    ensures
        i <= next_start_from(s, i) <= s.len(),
        next_start_from(s, i) < s.len() ==> is_value_start(s[next_start_from(s, i)]),
        forall|j: int| i <= j < next_start_from(s, i) ==> !is_value_start(s[j]),
    decreases s.len() - i,
{
    if i < s.len() && !is_value_start(s[i]) {
        lemma_next_start(s, i + 1);
    }
}

/// Where parsing resumes after a malformed value: the next possible value
/// start strictly after the bad byte, or the end of the buffer.
pub open spec fn recovery_point(s: Seq<u8>) -> int {
    let i = next_start_from(s, 1);
    if 1 <= i <= s.len() {
        i
    } else {
        s.len() as int
    }
}

fn scan_recovery(v: &Vec<u8>) -> (r: usize)
    requires
        v@.len() >= 1,
    ensures
        r == recovery_point(v@),
        1 <= r <= v@.len(),
{
    proof {
        lemma_next_start(v@, 1);
    }
    let mut i: usize = 1;
    while i < v.len()
        invariant
            1 <= i <= v@.len(),
            forall|j: int| 1 <= j < i ==> !is_value_start(v@[j]),
            next_start_from(v@, 1) == next_start_from(v@, i as int),
        decreases v@.len() - i,
    {
        let b = v[i];
        if b >= 48 && b <= 57 || b == 123 || b == 91 || b == 34 || b == 45 || b == 116 || b == 102
            || b == 110 {
            return i;
        }
        i = i + 1;
    }
    v.len()
}

/// One unit of console output from the Inbound Printer in JSON mode:
/// either a value rendered with indentation, or the report of a parse
/// error.
pub enum Event {
    Json(Vec<u8>),
    Notice(Vec<u8>),
}

pub enum EventSpec {
    Json(Seq<u8>),
    Notice(Seq<u8>),
}

impl View for Event {
    type V = EventSpec;

    open spec fn view(&self) -> EventSpec {
        match self {
            Event::Json(v) => EventSpec::Json(v@),
            Event::Notice(v) => EventSpec::Notice(v@),
        }
    }
}

pub open spec fn event_views(s: Seq<Event>) -> Seq<EventSpec> {
    s.map_values(|e: Event| e@)
}

/// Everything the printer says for a buffer of inbound bytes, together with
/// what stays pending: values are taken off the front one at a time; a
/// malformed value yields one notice and parsing resumes at the recovery
/// point; an exhausted or cut-short buffer waits for more bytes.
pub open spec fn drain_spec(s: Seq<u8>) -> (Seq<EventSpec>, Seq<u8>)
    decreases s.len(),
{
    if s.len() == 0 {
        (Seq::<EventSpec>::empty(), s)
    } else {
        match json_step_of(s) {
            JsonStepSpec::Val { text, used } => {
                if 1 <= used <= s.len() {
                    let rest = drain_spec(s.skip(used));
                    (seq![EventSpec::Json(text)] + rest.0, rest.1)
                } else {
                    (Seq::<EventSpec>::empty(), s)
                }
            },
            JsonStepSpec::End => (Seq::<EventSpec>::empty(), s),
            JsonStepSpec::Eof { msg } => (Seq::<EventSpec>::empty(), s),
            JsonStepSpec::Bad { msg } => {
                let rest = drain_spec(s.skip(recovery_point(s)));
                (seq![EventSpec::Notice(msg)] + rest.0, rest.1)
            },
        }
    }
}

/// A malformed value at the front of the buffer yields exactly one error
/// notice, and everything after the recovery point is handled as if the
/// malformed bytes had never arrived: one bad value never stops later
/// valid ones from being printed.
pub proof fn lemma_error_then_continue(s: Seq<u8>, msg: Seq<u8>)
    requires
        s.len() >= 1,
        json_step_of(s) == (JsonStepSpec::Bad { msg }),
    ensures
        drain_spec(s).0 == seq![EventSpec::Notice(msg)] + drain_spec(s.skip(recovery_point(s))).0,
        drain_spec(s).1 == drain_spec(s.skip(recovery_point(s))).1,
{
}

/// A well-formed value at the front of the buffer is printed exactly once,
/// and the bytes after it are handled independently of it.
pub proof fn lemma_value_then_continue(s: Seq<u8>, text: Seq<u8>, used: int)
    requires
        json_step_of(s) == (JsonStepSpec::Val { text, used }),
        1 <= used <= s.len(),
    ensures
        drain_spec(s).0 == seq![EventSpec::Json(text)] + drain_spec(s.skip(used)).0,
        drain_spec(s).1 == drain_spec(s.skip(used)).1,
{
}

/// The JSON half of the Inbound Printer: buffers inbound bytes and renders
/// each complete JSON value with indentation as soon as it has arrived,
/// reporting malformed values and carrying on.
pub struct JsonPrinter {
    buf: Vec<u8>,
}

impl JsonPrinter {
    /// Bytes received but not yet turned into output.
    pub closed spec fn pending(self) -> Seq<u8> {
        self.buf@
    }

    pub fn new() -> (r: JsonPrinter)
        ensures
            r.pending() == Seq::<u8>::empty(),
    {
        JsonPrinter { buf: Vec::new() }
    }

    /// Takes one chunk read from the transport and returns the console
    /// output it completes. Every rendered value parses back as a single
    /// JSON value covering the whole rendering, which renders to the same
    /// text again: printing loses nothing of the value.
    pub fn feed(&mut self, chunk: &Vec<u8>) -> (out: Vec<Event>)
        ensures
            event_views(out@) == drain_spec(old(self).pending() + chunk@).0,
            final(self).pending() == drain_spec(old(self).pending() + chunk@).1,
            forall|k: int|
                0 <= k < out@.len() ==> ((#[trigger] out@[k]@) matches EventSpec::Json(t)
                    ==> json_step_of(t) == (JsonStepSpec::Val { text: t, used: t.len() as int })),
    {
        let ghost s: Seq<u8> = self.buf@ + chunk@;
        let mut work: Vec<u8> = Vec::new();
        std::mem::swap(&mut work, &mut self.buf);
        let mut extra = copy_bytes(chunk);
        work.append(&mut extra);
        let mut buf = work;
        let mut out: Vec<Event> = Vec::new();
        let mut done = false;
        proof {
            assert(event_views(out@) =~= Seq::<EventSpec>::empty());
            assert(event_views(out@) + drain_spec(buf@).0 =~= drain_spec(s).0);
        }
        while !done
            invariant
                drain_spec(s).0 == event_views(out@) + drain_spec(buf@).0,
                drain_spec(s).1 == drain_spec(buf@).1,
                done ==> drain_spec(buf@).0 == Seq::<EventSpec>::empty() && drain_spec(buf@).1
                    == buf@,
                forall|k: int|
                    0 <= k < out@.len() ==> ((#[trigger] out@[k]@) matches EventSpec::Json(t)
                        ==> json_step_of(t) == (JsonStepSpec::Val {
                        text: t,
                        used: t.len() as int,
                    })),
            decreases buf@.len() + (if done {
                0int
            } else {
                1int
            }),
        {
            if buf.len() == 0 {
                done = true;
            } else {
                match json_step(&buf) {
                    JsonStep::Value(text, used) => {
                        let ghost before = buf@;
                        let ghost outb = out@;
                        let rest = drop_prefix(&buf, used);
                        proof {
                            lemma_value_then_continue(before, text@, used as int);
                            assert(event_views(outb.push(Event::Json(text))) =~= event_views(
                                outb,
                            ).push(EventSpec::Json(text@)));
                            assert(event_views(outb) + drain_spec(before).0 =~= event_views(
                                outb.push(Event::Json(text)),
                            ) + drain_spec(before.skip(used as int)).0);
                        }
                        out.push(Event::Json(text));
                        buf = rest;
                    },
                    JsonStep::End => {
                        done = true;
                    },
                    JsonStep::Eof(_m) => {
                        done = true;
                    },
                    JsonStep::Bad(msg) => {
                        let ghost before = buf@;
                        let ghost outb = out@;
                        let k = scan_recovery(&buf);
                        let rest = drop_prefix(&buf, k);
                        proof {
                            lemma_error_then_continue(before, msg@);
                            assert(event_views(outb.push(Event::Notice(msg))) =~= event_views(
                                outb,
                            ).push(EventSpec::Notice(msg@)));
                            assert(event_views(outb) + drain_spec(before).0 =~= event_views(
                                outb.push(Event::Notice(msg)),
                            ) + drain_spec(before.skip(k as int)).0);
                        }
                        out.push(Event::Notice(msg));
                        buf = rest;
                    },
                }
            }
        }
        proof {
            assert(event_views(out@) + drain_spec(buf@).0 =~= event_views(out@));
        }
        self.buf = buf;
        out
    }

    /// The output owed once the remote has closed: whatever complete values
    /// the pending bytes hold, then one notice if the input stops in the
    /// middle of a value.
    pub open spec fn finish_events(s: Seq<u8>) -> Seq<EventSpec> {
        let d = drain_spec(s);
        d.0 + (match json_step_of(d.1) {
            JsonStepSpec::Eof { msg } => if d.1.len() > 0 {
                seq![EventSpec::Notice(msg)]
            } else {
                Seq::<EventSpec>::empty()
            },
            _ => Seq::<EventSpec>::empty(),
        })
    }

    /// Called when the remote has closed: drains what can be drained,
    /// reports a value cut short by the close, and keeps nothing pending.
    pub fn finish(&mut self) -> (out: Vec<Event>)
        ensures
            event_views(out@) == Self::finish_events(old(self).pending()),
            final(self).pending() == Seq::<u8>::empty(),
    {
        let ghost s: Seq<u8> = self.buf@;
        let empty_chunk: Vec<u8> = Vec::new();
        proof {
            assert(s + empty_chunk@ =~= s);
        }
        let mut out = self.feed(&empty_chunk);
        let ghost outb = out@;
        if self.buf.len() > 0 {
            match json_step(&self.buf) {
                JsonStep::Eof(m) => {
                    proof {
                        assert(event_views(outb.push(Event::Notice(m))) =~= event_views(
                            outb,
                        ).push(EventSpec::Notice(m@)));
                        assert(event_views(outb).push(EventSpec::Notice(m@)) =~= Self::finish_events(
                            s,
                        ));
                    }
                    out.push(Event::Notice(m));
                },
                _ => {
                    proof {
                        assert(event_views(outb) =~= Self::finish_events(s));
                    }
                },
            }
        } else {
            proof {
                assert(event_views(outb) =~= Self::finish_events(s));
            }
        }
        self.buf = Vec::new();
        out
    }
}

} // verus!
