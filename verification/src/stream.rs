//! Reading a streamed chat completion: the deltas of its server-sent events
//! give the reply's reasoning, its text and the pieces of its tool calls.

use vstd::prelude::*;
use crate::agent::{apply_fragment, CallView, ToolCallAccumulator, ToolCallFragment};
use crate::dashscope::{opt_view, or_empty};
use crate::script::{sse_payloads, sse_payloads_of};
use crate::text::{append_str, str_lines, views};

verus! {

/// What one streamed event's first choice brings: its reasoning text, its
/// reply text and its tool-call pieces (a text is present only if it is a
/// JSON string).
#[derive(Clone, Debug, PartialEq)]
pub struct SseDelta {
    pub reasoning: Option<String>,
    pub content: Option<String>,
    pub tool_calls: Vec<ToolCallFragment>,
}

/// A tool-call piece as plain values: index, id, function name, argument
/// text.
pub type FragmentView = (Option<u64>, Option<Seq<char>>, Option<Seq<char>>, Option<Seq<char>>);

pub open spec fn fragment_view(f: ToolCallFragment) -> FragmentView {
    (f.index, opt_view(f.id), opt_view(f.name), opt_view(f.arguments))
}

/// A delta as plain values: reasoning, reply text, tool-call pieces.
pub type DeltaView = (Option<Seq<char>>, Option<Seq<char>>, Seq<FragmentView>);

pub open spec fn delta_view(d: SseDelta) -> DeltaView {
    (opt_view(d.reasoning), opt_view(d.content), d.tool_calls@.map_values(|f: ToolCallFragment| fragment_view(f)))
}

/// The delta of the event payload `t`, if it parses as JSON.
pub uninterp spec fn sse_delta_fields(t: Seq<char>) -> Option<DeltaView>;

/// `serde_json::from_str::<serde_json::Value>` on an event payload, then,
/// under `choices[0].delta`, `reasoning_content` and `content` as strings
/// and, for each entry of the `tool_calls` array (none when it is missing or
/// no array), its `index` as an unsigned integer and its `id`,
/// `function.name` and `function.arguments` as strings. `None` when the
/// payload is not JSON; a field is `None` when it is missing or of another
/// kind. The JSON grammar is `serde_json`'s, named here.
#[verifier::external_body]
fn read_sse_delta(t: &str) -> (r: Option<SseDelta>)
    ensures
        match r {
            Some(d) => sse_delta_fields(t@) == Some(delta_view(d)),
            None => sse_delta_fields(t@) is None,
        },
{
    let v: serde_json::Value = match serde_json::from_str(t) {
        Ok(v) => v,
        Err(_) => return None,
    };
    let d = &v["choices"][0]["delta"];
    let s = |x: &serde_json::Value| x.as_str().map(String::from);
    let calls = match d["tool_calls"].as_array() {
        Some(a) => a.iter().map(|c| ToolCallFragment { index: c["index"].as_u64(), id: s(&c["id"]), name: s(&c["function"]["name"]), arguments: s(&c["function"]["arguments"]) }).collect(),
        None => Vec::new(),
    };
    Some(SseDelta { reasoning: s(&d["reasoning_content"]), content: s(&d["content"]), tool_calls: calls })
}

/// What the caller shows while a reply streams in.
#[derive(Clone, Debug, PartialEq)]
pub enum StreamEvent {
    /// A piece of the model's reasoning.
    Thinking(String),
    /// A piece of the reply's text.
    Token(String),
}

/// An event as plain values: whether it is reasoning, and its text.
pub open spec fn event_view(e: StreamEvent) -> (bool, Seq<char>) {
    match e {
        StreamEvent::Thinking(t) => (true, t@),
        StreamEvent::Token(t) => (false, t@),
    }
}

/// The events of one delta: its reasoning, then its text, each if present.
pub open spec fn delta_events(d: DeltaView) -> Seq<(bool, Seq<char>)> {
    (match d.0 {
        Some(r) => seq![(true, r)],
        None => seq![],
    }) + (match d.1 {
        Some(c) => seq![(false, c)],
        None => seq![],
    })
}

/// The index a tool-call piece belongs to (0 when it names none).
pub open spec fn fragment_index(f: FragmentView) -> usize {
    match f.0 {
        Some(i) => i as usize,
        None => 0usize,
    }
}

/// The calls after the pieces `fs`, in order; see [`apply_fragment`].
pub open spec fn apply_fragments(calls: Seq<CallView>, fs: Seq<FragmentView>) -> Seq<CallView>
    decreases fs.len(),
{
    if fs.len() == 0 {
        calls
    } else {
        let f = fs.last();
        apply_fragment(apply_fragments(calls, fs.drop_last()), fragment_index(f), f.1, f.2, f.3)
    }
}

/// The reply text the payloads `ps` bring, in order (payloads that are not
/// JSON bring nothing).
pub open spec fn stream_text(ps: Seq<Seq<char>>) -> Seq<char>
    decreases ps.len(),
{
    if ps.len() == 0 {
        seq![]
    } else {
        stream_text(ps.drop_last()) + match sse_delta_fields(ps.last()) {
            Some(d) => or_empty(d.1),
            None => seq![],
        }
    }
}

/// The events the payloads `ps` bring, in order.
pub open spec fn stream_events(ps: Seq<Seq<char>>) -> Seq<(bool, Seq<char>)>
    decreases ps.len(),
{
    if ps.len() == 0 {
        seq![]
    } else {
        stream_events(ps.drop_last()) + match sse_delta_fields(ps.last()) {
            Some(d) => delta_events(d),
            None => seq![],
        }
    }
}

/// The tool calls after the payloads `ps`, starting from `calls`.
pub open spec fn stream_calls(calls: Seq<CallView>, ps: Seq<Seq<char>>) -> Seq<CallView>
    decreases ps.len(),
{
    if ps.len() == 0 {
        calls
    } else {
        let prev = stream_calls(calls, ps.drop_last());
        match sse_delta_fields(ps.last()) {
            Some(d) => apply_fragments(prev, d.2),
            None => prev,
        }
    }
}

/// Takes in one chunk of a streamed chat completion: for each of its event
/// payloads (see `sse_payloads`) that parses, the reasoning and the text
/// become events, the text is appended to `text`, and each tool-call piece
/// is added to `calls`, in order. The events are returned.
pub fn absorb_sse_chunk(text: &mut String, calls: &mut ToolCallAccumulator, chunk: &str) -> (r: Vec<StreamEvent>)
    ensures
        final(text)@ == old(text)@ + stream_text(sse_payloads_of(str_lines(chunk@))),
        final(calls).gathered() == stream_calls(old(calls).gathered(), sse_payloads_of(str_lines(chunk@))),
        r@.map_values(|e: StreamEvent| event_view(e)) == stream_events(sse_payloads_of(str_lines(chunk@))),
{
    let payloads = sse_payloads(chunk);
    let ghost ps = views(payloads@);
    let ghost text0 = text@;
    let ghost calls0 = calls.gathered();
    let mut events: Vec<StreamEvent> = Vec::new();
    let mut i: usize = 0;
    assert(ps.take(0) =~= Seq::<Seq<char>>::empty());
    assert(events@.map_values(|e: StreamEvent| event_view(e)) =~= Seq::<(bool, Seq<char>)>::empty());
    assert(text@ =~= text0 + stream_text(ps.take(0)));
    while i < payloads.len()
        invariant
            ps == views(payloads@),
            i <= payloads@.len(),
            text@ == text0 + stream_text(ps.take(i as int)),
            calls.gathered() == stream_calls(calls0, ps.take(i as int)),
            events@.map_values(|e: StreamEvent| event_view(e)) == stream_events(ps.take(i as int)),
        decreases payloads@.len() - i,
    {
        proof {
            assert(ps.take(i + 1).drop_last() =~= ps.take(i as int));
            assert(ps.take(i + 1).last() == payloads@[i as int]@);
        }
        let ghost ev0 = events@.map_values(|e: StreamEvent| event_view(e));
        let ghost t0 = text@;
        match read_sse_delta(payloads[i].as_str()) {
            Some(d) => {
                let ghost dv = delta_view(d);
                match &d.reasoning {
                    Some(rs) => {
                        events.push(StreamEvent::Thinking(rs.clone()));
                    },
                    None => {},
                }
                let ghost ev1 = events@.map_values(|e: StreamEvent| event_view(e));
                match &d.content {
                    Some(c) => {
                        append_str(text, c.as_str());
                        events.push(StreamEvent::Token(c.clone()));
                    },
                    None => {},
                }
                proof {
                    assert(ev1 =~= ev0 + match dv.0 {
                        Some(r) => seq![(true, r)],
                        None => Seq::<(bool, Seq<char>)>::empty(),
                    });
                    assert(events@.map_values(|e: StreamEvent| event_view(e)) =~= ev0 + delta_events(dv));
                    assert(text@ =~= t0 + or_empty(dv.1));
                }
                let ghost g0 = calls.gathered();
                let mut j: usize = 0;
                assert(dv.2.take(0) =~= Seq::<FragmentView>::empty());
                while j < d.tool_calls.len()
                    invariant
                        dv == delta_view(d),
                        j <= d.tool_calls@.len(),
                        calls.gathered() == apply_fragments(g0, dv.2.take(j as int)),
                    decreases d.tool_calls@.len() - j,
                {
                    proof {
                        assert(dv.2.take(j + 1).drop_last() =~= dv.2.take(j as int));
                        assert(dv.2.take(j + 1).last() == fragment_view(d.tool_calls@[j as int]));
                    }
                    calls.add(&d.tool_calls[j]);
                    j = j + 1;
                }
                proof {
                    assert(dv.2.take(j as int) =~= dv.2);
                }
            },
            None => {
                proof {
                    assert(events@.map_values(|e: StreamEvent| event_view(e)) =~= ev0 + Seq::<(bool, Seq<char>)>::empty());
                    assert(text@ =~= t0 + Seq::<char>::empty());
                }
            },
        }
        i = i + 1;
    }
    proof {
        assert(ps.take(i as int) =~= ps);
    }
    events
}

} // verus!
