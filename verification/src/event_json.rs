//! The JSON form of run results and stream events, as the command line
//! prints them.
//!
//! An event is an object with an `event` member naming its kind
//! (`node_started`, `node_finished`, `state_chunk`, `command_emitted`,
//! `interrupted`, `completed`) and the event's fields.  Metadata is an
//! object of `supersteps`, `channel_versions`, `versions_seen` and
//! `command_trace`; a command is an object with a `type` member.
use vstd::prelude::*;
use crate::executor::{CommandTraceEvent, ExecutionMetadata, InterruptSignal, StreamEvent};
use crate::json::{Json, StrMap, Value};
use crate::runtime::{Command, CommandView};
use crate::state::{json_map, State};
use crate::text::owned;

verus! {

/// Whether `v` is an object whose members, as JSON, are `fields`.
pub open spec fn object_of(v: Value, fields: Map<Seq<char>, Json>) -> bool {
    v matches Value::Object(m) && json_map(m) == fields
}

/// Whether `v` is an array of the texts `names`.
pub open spec fn texts_of(v: Value, names: Seq<Seq<char>>) -> bool {
    v@ == Json::Array(names.map_values(|n: Seq<char>| Json::Text(n)))
}

/// The JSON of a command: `{"type": "interrupt"}`, `{"type": "goto",
/// "target": t}` or `{"type": "goto_many", "targets": [..]}`.
pub open spec fn command_value(c: CommandView, v: Value) -> bool {
    match c {
        CommandView::Interrupt => object_of(v, map!["type"@ => Json::Text("interrupt"@)]),
        CommandView::Goto(t) => object_of(v, map!["type"@ => Json::Text("goto"@), "target"@ => Json::Text(t)]),
        CommandView::GotoMany(ts) => v matches Value::Object(m) && m@.dom() == set!["type"@, "targets"@]
            && m@["type"@]@ == Json::Text("goto_many"@) && texts_of(m@["targets"@], ts),
    }
}

/// The JSON of a map of counters: each counter as a number.
pub open spec fn counts_value(c: Map<Seq<char>, u64>, v: Value) -> bool {
    object_of(v, c.map_values(|n: u64| Json::Number(n as int)))
}

/// The JSON of a command trace entry: its node, superstep and command.
pub open spec fn trace_event_value(e: CommandTraceEvent, v: Value) -> bool {
    v matches Value::Object(m) && m@.dom() == set!["node"@, "superstep"@, "command"@]
        && m@["node"@]@ == Json::Text(e.node@) && m@["superstep"@]@ == Json::Number(e.superstep as int)
        && command_value(e.command@, m@["command"@])
}

/// The JSON of run metadata.
pub open spec fn metadata_value(md: ExecutionMetadata, v: Value) -> bool {
    v matches Value::Object(m) && m@.dom() == set!["supersteps"@, "channel_versions"@, "versions_seen"@, "command_trace"@]
        && m@["supersteps"@]@ == Json::Number(md.supersteps as int)
        && counts_value(md.channel_versions@, m@["channel_versions"@])
        && counts_value(md.versions_seen@, m@["versions_seen"@])
        && (m@["command_trace"@] matches Value::Array(items) && items@.len() == md.command_trace@.len()
        && forall|i: int| 0 <= i < items@.len() ==> trace_event_value(md.command_trace@[i], #[trigger] items@[i]))
}

/// The JSON of an interrupt: `{"node": n, "superstep": s}`, or null.
pub open spec fn interrupt_value(i: Option<InterruptSignal>, v: Value) -> bool {
    match i {
        Some(sig) => object_of(
            v,
            map!["node"@ => Json::Text(sig.node@), "superstep"@ => Json::Number(sig.superstep as int)],
        ),
        None => v@ == Json::Null,
    }
}

/// The JSON of a state or a patch: an object of its members.
pub open spec fn state_value(s: State, v: Value) -> bool {
    object_of(v, json_map(s))
}

/// The JSON of a stream event.
pub open spec fn event_value(e: StreamEvent, v: Value) -> bool {
    match e {
        StreamEvent::NodeStarted { node, superstep } => object_of(
            v,
            map![
                "event"@ => Json::Text("node_started"@),
                "node"@ => Json::Text(node@),
                "superstep"@ => Json::Number(superstep as int),
            ],
        ),
        StreamEvent::NodeFinished { node, superstep, patch } => v matches Value::Object(m) && m@.dom() == set![
            "event"@,
            "node"@,
            "superstep"@,
            "patch"@,
        ] && m@["event"@]@ == Json::Text("node_finished"@) && m@["node"@]@ == Json::Text(node@)
            && m@["superstep"@]@ == Json::Number(superstep as int) && state_value(patch, m@["patch"@]),
        StreamEvent::StateChunk { superstep, chunk } => v matches Value::Object(m) && m@.dom() == set![
            "event"@,
            "superstep"@,
            "chunk"@,
        ] && m@["event"@]@ == Json::Text("state_chunk"@) && m@["superstep"@]@ == Json::Number(superstep as int)
            && state_value(chunk, m@["chunk"@]),
        StreamEvent::CommandEmitted { node, superstep, command } => v matches Value::Object(m) && m@.dom() == set![
            "event"@,
            "node"@,
            "superstep"@,
            "command"@,
        ] && m@["event"@]@ == Json::Text("command_emitted"@) && m@["node"@]@ == Json::Text(node@)
            && m@["superstep"@]@ == Json::Number(superstep as int) && command_value(command@, m@["command"@]),
        StreamEvent::Interrupted { node, superstep } => object_of(
            v,
            map![
                "event"@ => Json::Text("interrupted"@),
                "node"@ => Json::Text(node@),
                "superstep"@ => Json::Number(superstep as int),
            ],
        ),
        StreamEvent::Completed { state, metadata, interrupt } => v matches Value::Object(m) && m@.dom() == set![
            "event"@,
            "state"@,
            "metadata"@,
            "interrupt"@,
        ] && m@["event"@]@ == Json::Text("completed"@) && state_value(state, m@["state"@])
            && metadata_value(metadata, m@["metadata"@]) && interrupt_value(interrupt, m@["interrupt"@]),
    }
}

/// The JSON of a run's output with metadata: `{"state": .., "metadata": ..}`.
pub open spec fn output_with_metadata_value(s: State, md: ExecutionMetadata, v: Value) -> bool {
    v matches Value::Object(m) && m@.dom() == set!["state"@, "metadata"@] && state_value(s, m@["state"@])
        && metadata_value(md, m@["metadata"@])
}

/// The member names, character by character.
proof fn lemma_member_names()
    ensures
        "event"@ == seq!['e', 'v', 'e', 'n', 't'],
        "node"@ == seq!['n', 'o', 'd', 'e'],
        "superstep"@ == seq!['s', 'u', 'p', 'e', 'r', 's', 't', 'e', 'p'],
        "patch"@ == seq!['p', 'a', 't', 'c', 'h'],
        "chunk"@ == seq!['c', 'h', 'u', 'n', 'k'],
        "command"@ == seq!['c', 'o', 'm', 'm', 'a', 'n', 'd'],
        "state"@ == seq!['s', 't', 'a', 't', 'e'],
        "metadata"@ == seq!['m', 'e', 't', 'a', 'd', 'a', 't', 'a'],
        "interrupt"@ == seq!['i', 'n', 't', 'e', 'r', 'r', 'u', 'p', 't'],
        "type"@ == seq!['t', 'y', 'p', 'e'],
        "target"@ == seq!['t', 'a', 'r', 'g', 'e', 't'],
        "targets"@ == seq!['t', 'a', 'r', 'g', 'e', 't', 's'],
        "supersteps"@ == seq!['s', 'u', 'p', 'e', 'r', 's', 't', 'e', 'p', 's'],
        "channel_versions"@ == seq!['c', 'h', 'a', 'n', 'n', 'e', 'l', '_', 'v', 'e', 'r', 's', 'i', 'o', 'n', 's'],
        "versions_seen"@ == seq!['v', 'e', 'r', 's', 'i', 'o', 'n', 's', '_', 's', 'e', 'e', 'n'],
        "command_trace"@ == seq!['c', 'o', 'm', 'm', 'a', 'n', 'd', '_', 't', 'r', 'a', 'c', 'e'],
{
    reveal_strlit("event");
    reveal_strlit("node");
    reveal_strlit("superstep");
    reveal_strlit("patch");
    reveal_strlit("chunk");
    reveal_strlit("command");
    reveal_strlit("state");
    reveal_strlit("metadata");
    reveal_strlit("interrupt");
    reveal_strlit("type");
    reveal_strlit("target");
    reveal_strlit("targets");
    reveal_strlit("supersteps");
    reveal_strlit("channel_versions");
    reveal_strlit("versions_seen");
    reveal_strlit("command_trace");
}

/// A counter as a number.
pub fn number_value(n: u64) -> (v: Value)
    ensures
        v@ == Json::Number(n as int),
{
    if n <= 0x7fff_ffff_ffff_ffff {
        Value::Number(n as i64)
    } else {
        Value::Unsigned(n)
    }
}

/// A text as a value.
fn text_value(s: &str) -> (v: Value)
    ensures
        v@ == Json::Text(s@),
{
    Value::String(owned(s))
}

/// A state or patch as an object.
pub fn state_to_value(s: &State) -> (v: Value)
    ensures
        state_value(*s, v),
{
    let m = s.copy_values_map();
    proof {
        assert(json_map(m) =~= json_map(*s));
    }
    Value::Object(m)
}

/// The JSON of a command.
pub fn command_to_value(c: &Command) -> (v: Value)
    ensures
        command_value(c@, v),
{
    proof {
        lemma_member_names();
    }
    let mut m: StrMap<Value> = StrMap::new();
    match c {
        Command::Interrupt => {
            m.insert(owned("type"), text_value("interrupt"));
            proof {
                assert(json_map(m) =~= map!["type"@ => Json::Text("interrupt"@)]);
            }
        },
        Command::Goto(t) => {
            m.insert(owned("type"), text_value("goto"));
            m.insert(owned("target"), text_value(t.as_str()));
            proof {
                assert(json_map(m) =~= map!["type"@ => Json::Text("goto"@), "target"@ => Json::Text(t@)]);
            }
        },
        Command::GotoMany(ts) => {
            let mut items: Vec<Value> = Vec::new();
            let mut i: usize = 0;
            while i < ts.len()
                invariant
                    i <= ts@.len(),
                    items@.len() == i,
                    forall|j: int| 0 <= j < i ==> (#[trigger] items@[j])@ == Json::Text(ts@[j]@),
                decreases ts@.len() - i,
            {
                items.push(text_value(ts[i].as_str()));
                i = i + 1;
            }
            let arr = Value::Array(items);
            proof {
                let names = crate::runtime::names_view(ts@);
                assert(arr@->Array_0 =~= names.map_values(|n: Seq<char>| Json::Text(n)));
            }
            m.insert(owned("type"), text_value("goto_many"));
            m.insert(owned("targets"), arr);
            proof {
                assert(m@.dom() =~= set!["type"@, "targets"@]);
            }
        },
    }
    Value::Object(m)
}

/// The JSON of a map of counters.
pub fn counts_to_value(c: &StrMap<u64>) -> (v: Value)
    ensures
        counts_value(c@, v),
{
    let mut m: StrMap<Value> = StrMap::new();
    let n = c.len();
    let mut i: usize = 0;
    proof {
        use_type_invariant(c);
        c.lemma_view();
    }
    while i < n
        invariant
            n == c.pairs().len(),
            i <= n,
            forall|j: int| 0 <= j < c.pairs().len() ==> c@[#[trigger] c.pairs()[j].0@] == c.pairs()[j].1,
            forall|k: Seq<char>| #[trigger] m@.contains_key(k) <==> exists|j: int| 0 <= j < i && c.pairs()[j].0@ == k,
            forall|k: Seq<char>| #[trigger] m@.contains_key(k) ==> m@[k]@ == Json::Number(c@[k] as int),
        decreases n - i,
    {
        let k = c.key_at(i);
        let val = c.value_at(i);
        let ghost before = m@;
        let ghost kv = k@;
        m.insert(k.clone(), number_value(*val));
        proof {
            assert(c.pairs()[i as int].0@ == kv);
            assert(c@[kv] == *val);
            assert forall|kk: Seq<char>| #[trigger] m@.contains_key(kk) <==> exists|j: int| 0 <= j < i + 1 && c.pairs()[j].0@ == kk by {
                if m@.contains_key(kk) && kk != kv {
                    assert(before.contains_key(kk));
                    let j = choose|j: int| 0 <= j < i && c.pairs()[j].0@ == kk;
                    assert(0 <= j < i + 1 && c.pairs()[j].0@ == kk);
                }
                if exists|j: int| 0 <= j < i + 1 && c.pairs()[j].0@ == kk {
                    let j = choose|j: int| 0 <= j < i + 1 && c.pairs()[j].0@ == kk;
                    if j < i {
                        assert(before.contains_key(kk));
                    }
                }
            }
        }
        i = i + 1;
    }
    proof {
        c.lemma_view();
        assert forall|k: Seq<char>| m@.dom().contains(k) <==> c@.dom().contains(k) by {
            if c@.contains_key(k) {
                let j = choose|j: int| 0 <= j < c.pairs().len() && #[trigger] c.pairs()[j].0@ == k;
                assert(m@.contains_key(k));
            }
            if m@.contains_key(k) {
                let j = choose|j: int| 0 <= j < i && c.pairs()[j].0@ == k;
                assert(c@.contains_key(c.pairs()[j].0@));
            }
        }
        assert(json_map(m) =~= c@.map_values(|x: u64| Json::Number(x as int)));
    }
    Value::Object(m)
}

/// The JSON of a command trace entry.
pub fn trace_event_to_value(e: &CommandTraceEvent) -> (v: Value)
    ensures
        trace_event_value(*e, v),
{
    proof {
        lemma_member_names();
    }
    let mut m: StrMap<Value> = StrMap::new();
    m.insert(owned("node"), text_value(e.node.as_str()));
    m.insert(owned("superstep"), number_value(e.superstep as u64));
    m.insert(owned("command"), command_to_value(&e.command));
    proof {
        assert(m@.dom() =~= set!["node"@, "superstep"@, "command"@]);
    }
    Value::Object(m)
}

/// The JSON of run metadata.
pub fn metadata_to_value(md: &ExecutionMetadata) -> (v: Value)
    ensures
        metadata_value(*md, v),
{
    proof {
        lemma_member_names();
    }
    let mut items: Vec<Value> = Vec::new();
    let mut i: usize = 0;
    while i < md.command_trace.len()
        invariant
            i <= md.command_trace@.len(),
            items@.len() == i,
            forall|j: int| 0 <= j < i ==> trace_event_value(md.command_trace@[j], #[trigger] items@[j]),
        decreases md.command_trace@.len() - i,
    {
        items.push(trace_event_to_value(&md.command_trace[i]));
        i = i + 1;
    }
    let mut m: StrMap<Value> = StrMap::new();
    m.insert(owned("supersteps"), number_value(md.supersteps as u64));
    m.insert(owned("channel_versions"), counts_to_value(&md.channel_versions));
    m.insert(owned("versions_seen"), counts_to_value(&md.versions_seen));
    m.insert(owned("command_trace"), Value::Array(items));
    proof {
        assert(m@.dom() =~= set!["supersteps"@, "channel_versions"@, "versions_seen"@, "command_trace"@]);
    }
    Value::Object(m)
}

/// The JSON of an interrupt, or null.
pub fn interrupt_to_value(i: &Option<InterruptSignal>) -> (v: Value)
    ensures
        interrupt_value(*i, v),
{
    proof {
        lemma_member_names();
    }
    match i {
        Some(sig) => {
            let mut m: StrMap<Value> = StrMap::new();
            m.insert(owned("node"), text_value(sig.node.as_str()));
            m.insert(owned("superstep"), number_value(sig.superstep as u64));
            proof {
                assert(json_map(m) =~= map![
                    "node"@ => Json::Text(sig.node@),
                    "superstep"@ => Json::Number(sig.superstep as int),
                ]);
            }
            Value::Object(m)
        },
        None => Value::Null,
    }
}

/// A run's state and metadata as one object.
pub fn output_with_metadata_to_value(s: &State, md: &ExecutionMetadata) -> (v: Value)
    ensures
        output_with_metadata_value(*s, *md, v),
{
    proof {
        lemma_member_names();
    }
    let mut m: StrMap<Value> = StrMap::new();
    m.insert(owned("state"), state_to_value(s));
    m.insert(owned("metadata"), metadata_to_value(md));
    proof {
        assert(m@.dom() =~= set!["state"@, "metadata"@]);
    }
    Value::Object(m)
}

/// The JSON of a stream event.
pub fn stream_event_to_value(e: &StreamEvent) -> (v: Value)
    ensures
        event_value(*e, v),
{
    proof {
        lemma_member_names();
    }
    let mut m: StrMap<Value> = StrMap::new();
    match e {
        StreamEvent::NodeStarted { node, superstep } => {
            m.insert(owned("event"), text_value("node_started"));
            m.insert(owned("node"), text_value(node.as_str()));
            m.insert(owned("superstep"), number_value(*superstep as u64));
            proof {
                assert(json_map(m) =~= map![
                    "event"@ => Json::Text("node_started"@),
                    "node"@ => Json::Text(node@),
                    "superstep"@ => Json::Number(*superstep as int),
                ]);
            }
        },
        StreamEvent::NodeFinished { node, superstep, patch } => {
            m.insert(owned("event"), text_value("node_finished"));
            m.insert(owned("node"), text_value(node.as_str()));
            m.insert(owned("superstep"), number_value(*superstep as u64));
            m.insert(owned("patch"), state_to_value(patch));
            proof {
                assert(m@.dom() =~= set!["event"@, "node"@, "superstep"@, "patch"@]);
            }
        },
        StreamEvent::StateChunk { superstep, chunk } => {
            m.insert(owned("event"), text_value("state_chunk"));
            m.insert(owned("superstep"), number_value(*superstep as u64));
            m.insert(owned("chunk"), state_to_value(chunk));
            proof {
                assert(m@.dom() =~= set!["event"@, "superstep"@, "chunk"@]);
            }
        },
        StreamEvent::CommandEmitted { node, superstep, command } => {
            m.insert(owned("event"), text_value("command_emitted"));
            m.insert(owned("node"), text_value(node.as_str()));
            m.insert(owned("superstep"), number_value(*superstep as u64));
            m.insert(owned("command"), command_to_value(command));
            proof {
                assert(m@.dom() =~= set!["event"@, "node"@, "superstep"@, "command"@]);
            }
        },
        StreamEvent::Interrupted { node, superstep } => {
            m.insert(owned("event"), text_value("interrupted"));
            m.insert(owned("node"), text_value(node.as_str()));
            m.insert(owned("superstep"), number_value(*superstep as u64));
            proof {
                assert(json_map(m) =~= map![
                    "event"@ => Json::Text("interrupted"@),
                    "node"@ => Json::Text(node@),
                    "superstep"@ => Json::Number(*superstep as int),
                ]);
            }
        },
        StreamEvent::Completed { state, metadata, interrupt } => {
            m.insert(owned("event"), text_value("completed"));
            m.insert(owned("state"), state_to_value(state));
            m.insert(owned("metadata"), metadata_to_value(metadata));
            m.insert(owned("interrupt"), interrupt_to_value(interrupt));
            proof {
                assert(m@.dom() =~= set!["event"@, "state"@, "metadata"@, "interrupt"@]);
            }
        },
    }
    Value::Object(m)
}

/// The lines `lines`, each but the last followed by a line break.
pub open spec fn joined_lines(lines: Seq<Seq<char>>) -> Seq<char>
    decreases lines.len(),
{
    if lines.len() == 0 {
        Seq::empty()
    } else if lines.len() == 1 {
        lines[0]
    } else {
        joined_lines(lines.drop_last()) + "\n"@ + lines.last()
    }
}

/// Joins the lines of an event stream, one event per line.
pub fn join_lines(lines: &Vec<String>) -> (r: String)
    ensures
        r@ == joined_lines(lines@.map_values(|l: String| l@)),
{
    let ghost all = lines@.map_values(|l: String| l@);
    let mut out = String::new();
    let mut i: usize = 0;
    while i < lines.len()
        invariant
            i <= lines@.len(),
            all == lines@.map_values(|l: String| l@),
            out@ == joined_lines(all.subrange(0, i as int)),
        decreases lines@.len() - i,
    {
        proof {
            reveal_strlit("\n");
            assert(all.subrange(0, i + 1).drop_last() =~= all.subrange(0, i as int));
            assert(all.subrange(0, i + 1).last() == lines@[i as int]@);
        }
        if i > 0 {
            out.append("\n");
        }
        out.append(lines[i].as_str());
        i = i + 1;
    }
    proof {
        assert(all.subrange(0, lines@.len() as int) =~= all);
    }
    out
}

} // verus!
