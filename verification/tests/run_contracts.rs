use langgraph::channel::Topic;
use langgraph::cli::{run, run_with_args, CliError, InputSource, RunArgs, RunOutput};
use langgraph::command_policy::CommandPolicy;
use langgraph::error::GraphError;
use langgraph::event_json::{join_lines, number_value, stream_event_to_value};
use langgraph::executor::{CollectSink, DiscardSink, ExecutionMetadata, InterruptSignal, SequentialExecutor, StreamEvent};
use langgraph::graph::{RuntimeNodeFn, StateGraph, StateNodeFn};
use langgraph::json::{StrMap, Value};
use langgraph::runtime::{Command, NodeOutput, RuntimeContext};
use langgraph::state::{State, StatePatch};
use langgraph::tool_node::{Tool, ToolAudit, ToolInvocation, ToolNode};

fn text(s: &str) -> Value {
    Value::String(s.to_string())
}

fn map(pairs: Vec<(&str, Value)>) -> StrMap<Value> {
    let mut m = StrMap::new();
    for (k, v) in pairs {
        m.insert(k.to_string(), v);
    }
    m
}

fn obj(pairs: Vec<(&str, Value)>) -> Value {
    Value::Object(map(pairs))
}

struct Writes(&'static str, &'static str);

impl StateNodeFn for Writes {
    fn run(&self, _state: &State) -> Result<StatePatch, String> {
        Ok(map(vec![(self.0, text(self.1))]))
    }
}

struct Emits(NodeOutput);

impl RuntimeNodeFn for Emits {
    fn run(&self, _state: &State, _runtime_context: &RuntimeContext) -> Result<NodeOutput, String> {
        Ok(NodeOutput { patch: self.0.patch.copy_map(), commands: self.0.commands.iter().map(|c| c.copy()).collect() })
    }
}

/// Counts how often the input is read.
struct CountingInput(usize);

impl InputSource for CountingInput {
    fn read_state(&mut self, _input_path: Option<&String>) -> Result<State, CliError> {
        self.0 += 1;
        Ok(StrMap::new())
    }
}

#[test]
fn stream_reports_merged_chunk_command_and_completion() {
    let mut graph = StateGraph::new();
    let router = NodeOutput { patch: map(vec![("events", text("seed"))]), commands: vec![Command::Goto("finish".to_string())] };
    graph.add_node_with_runtime("router", Box::new(Emits(router))).unwrap();
    graph.add_node("finish", Box::new(Writes("status", "done"))).unwrap();
    graph.add_edge("router", "finish").unwrap();
    graph.set_entry_point("router");
    graph.set_finish_point("finish");
    graph.add_channel("events", Box::new(Topic));
    let compiled = graph.compile().unwrap();
    let mut sink = CollectSink { events: Vec::new() };
    let result = SequentialExecutor
        .run_with_sink(&compiled, StrMap::new(), &StrMap::new(), StrMap::new(), &CommandPolicy::default(), &mut sink)
        .unwrap();
    assert_eq!(result.state.get("events"), Some(&Value::Array(vec![text("seed")])));
    assert_eq!(result.state.get("status"), Some(&text("done")));
    assert_eq!(result.interrupt, None);
    assert!(sink.events.iter().any(|e| matches!(e, StreamEvent::CommandEmitted { node, superstep: 1, command: Command::Goto(t) } if node == "router" && t == "finish")));
    assert!(sink.events.iter().any(|e| matches!(e, StreamEvent::StateChunk { superstep: 1, chunk } if chunk.get("events") == Some(&Value::Array(vec![text("seed")])))));
    assert!(matches!(sink.events.last(), Some(StreamEvent::Completed { .. })));
}

#[test]
fn interrupting_node_gives_signal_and_event() {
    let mut graph = StateGraph::new();
    graph.add_node_with_runtime("gate", Box::new(Emits(NodeOutput::interrupt(map(vec![("status", text("paused"))]))))).unwrap();
    graph.set_entry_point("gate");
    graph.set_finish_point("gate");
    let compiled = graph.compile().unwrap();
    let mut sink = CollectSink { events: Vec::new() };
    let result = SequentialExecutor
        .run_with_sink(&compiled, StrMap::new(), &StrMap::new(), StrMap::new(), &CommandPolicy::default(), &mut sink)
        .unwrap();
    assert_eq!(result.interrupt, Some(InterruptSignal { node: "gate".to_string(), superstep: 1 }));
    assert_eq!(result.state.get("status"), Some(&text("paused")));
    assert!(sink.events.iter().any(|e| matches!(e, StreamEvent::Interrupted { node, superstep: 1 } if node == "gate")));
}

#[test]
fn refused_duplicate_node_keeps_the_first_binding() {
    let mut graph = StateGraph::new();
    graph.add_node("node_a", Box::new(Writes("out", "first"))).unwrap();
    let refused = graph.add_node("node_a", Box::new(Writes("out", "second")));
    assert_eq!(refused, Err(GraphError::DuplicateNode("node_a".to_string())));
    graph.set_entry_point("node_a");
    graph.set_finish_point("node_a");
    let compiled = graph.compile().unwrap();
    let state = SequentialExecutor.invoke(&compiled, StrMap::new()).unwrap();
    assert_eq!(state.get("out"), Some(&text("first")));
}

#[test]
fn conflicting_options_and_unknown_graph_leave_the_input_unread() {
    let mut source = CountingInput(0);
    let mut sink = DiscardSink;
    let conflict = RunArgs { pretty: true, stream: true, ..RunArgs::default() };
    assert!(matches!(run(conflict, &mut source, &mut sink), Err(CliError::OptionConflict(_))));
    let unknown = RunArgs { graph: "nope".to_string(), ..RunArgs::default() };
    assert!(matches!(run(unknown, &mut source, &mut sink), Err(CliError::UnknownGraphPreset(n)) if n == "nope"));
    let parse_error = run_with_args(vec!["bin".to_string(), "bogus".to_string()], &mut source, &mut sink);
    assert!(parse_error.is_err());
    assert_eq!(source.0, 0);
    let ok = run(RunArgs::default(), &mut source, &mut sink).unwrap();
    assert_eq!(source.0, 1);
    match ok {
        RunOutput::State { state, .. } => assert_eq!(state.get("text"), Some(&text("ab"))),
        _ => panic!("expected a state"),
    }
}

struct EchoInput;

impl Tool for EchoInput {
    fn call(&self, input: &Value, _runtime_context: &RuntimeContext) -> Result<Value, String> {
        Ok(input.copy())
    }
}

struct Refuse;

impl ToolAudit for Refuse {
    fn check(&self, invocation: &ToolInvocation, _runtime_context: &RuntimeContext) -> Result<(), String> {
        Err(format!("{} is off limits", invocation.resolved_tool))
    }
}

#[test]
fn tool_gets_the_request_input_and_audit_refusal_is_reported() {
    let mut node = ToolNode::new();
    node.add_tool("echo", Box::new(EchoInput));
    let state = map(vec![("tool_call", obj(vec![("name", text("echo")), ("input", obj(vec![("q", text("hi"))]))]))]);
    let out = node.run(&state, &StrMap::new()).unwrap();
    assert_eq!(out.patch.get("tool_result"), Some(&obj(vec![("q", text("hi"))])));
    let audited = node.with_audit_hook(Box::new(Refuse));
    let refused = audited.run(&state, &StrMap::new()).unwrap();
    assert_eq!(refused.patch.get("tool_error"), Some(&text("tool audit rejected invocation: echo is off limits")));
}

#[test]
fn event_values_carry_kind_and_fields() {
    let started = stream_event_to_value(&StreamEvent::NodeStarted { node: "a".to_string(), superstep: 3 });
    assert_eq!(started, obj(vec![("event", text("node_started")), ("node", text("a")), ("superstep", Value::Number(3))]));
    let mut versions = StrMap::new();
    versions.insert("events".to_string(), 2u64);
    let completed = stream_event_to_value(&StreamEvent::Completed {
        state: map(vec![("text", text("ab"))]),
        metadata: ExecutionMetadata {
            supersteps: 2,
            channel_versions: versions.copy_counts(),
            versions_seen: versions,
            command_trace: Vec::new(),
        },
        interrupt: None,
    });
    let metadata = obj(vec![
        ("supersteps", Value::Number(2)),
        ("channel_versions", obj(vec![("events", Value::Number(2))])),
        ("versions_seen", obj(vec![("events", Value::Number(2))])),
        ("command_trace", Value::Array(Vec::new())),
    ]);
    assert_eq!(
        completed,
        obj(vec![
            ("event", text("completed")),
            ("state", obj(vec![("text", text("ab"))])),
            ("metadata", metadata),
            ("interrupt", Value::Null),
        ])
    );
}

#[test]
fn counters_above_the_signed_range_stay_exact() {
    assert_eq!(number_value(7), Value::Number(7));
    assert_eq!(number_value(u64::MAX), Value::Unsigned(u64::MAX));
}

#[test]
fn stream_events_come_in_node_then_chunk_then_completion_order() {
    let mut graph = StateGraph::new();
    let router = NodeOutput { patch: map(vec![("events", text("seed"))]), commands: vec![Command::Goto("finish".to_string())] };
    graph.add_node_with_runtime("router", Box::new(Emits(router))).unwrap();
    graph.add_node("finish", Box::new(Writes("status", "done"))).unwrap();
    graph.add_edge("router", "finish").unwrap();
    graph.set_entry_point("router");
    graph.set_finish_point("finish");
    graph.add_channel("events", Box::new(Topic));
    let compiled = graph.compile().unwrap();
    let result = SequentialExecutor
        .stream_with_runtime_context_and_policy(&compiled, StrMap::new(), StrMap::new(), StrMap::new(), &CommandPolicy::default())
        .unwrap();
    let kinds: Vec<String> = result
        .events
        .iter()
        .map(|e| match e {
            StreamEvent::NodeStarted { node, superstep } => format!("started {node} {superstep}"),
            StreamEvent::NodeFinished { node, superstep, .. } => format!("finished {node} {superstep}"),
            StreamEvent::StateChunk { superstep, .. } => format!("chunk {superstep}"),
            StreamEvent::CommandEmitted { node, superstep, .. } => format!("command {node} {superstep}"),
            StreamEvent::Interrupted { node, superstep } => format!("interrupted {node} {superstep}"),
            StreamEvent::Completed { .. } => "completed".to_string(),
        })
        .collect();
    assert_eq!(
        kinds,
        vec![
            "started router 1",
            "finished router 1",
            "command router 1",
            "chunk 1",
            "started finish 2",
            "finished finish 2",
            "chunk 2",
            "completed",
        ]
    );
    assert_eq!(result.metadata.command_trace.len(), 1);
    assert_eq!(result.metadata.command_trace[0].node, "router");
    assert_eq!(result.metadata.command_trace[0].superstep, 1);
}

/// Writes to `field` whether `probe` was in the state it ran on.
struct Probe(&'static str, &'static str);

impl StateNodeFn for Probe {
    fn run(&self, state: &State) -> Result<StatePatch, String> {
        Ok(map(vec![(self.0, Value::Bool(state.get(self.1).is_some()))]))
    }
}

struct Fails;

impl StateNodeFn for Fails {
    fn run(&self, _state: &State) -> Result<StatePatch, String> {
        Err("boom".to_string())
    }
}

#[test]
fn nodes_of_one_superstep_read_the_state_at_its_start() {
    let mut graph = StateGraph::new();
    graph.add_node("start", Box::new(Writes("s", "1"))).unwrap();
    graph.add_node("a", Box::new(Writes("x", "a"))).unwrap();
    graph.add_node("b", Box::new(Probe("b_saw_x", "x"))).unwrap();
    graph.add_node("finish", Box::new(Probe("finish_saw_x", "x"))).unwrap();
    graph.add_edge("start", "a").unwrap();
    graph.add_edge("start", "b").unwrap();
    graph.add_edge("a", "finish").unwrap();
    graph.add_edge("b", "finish").unwrap();
    graph.set_entry_point("start");
    graph.set_finish_point("finish");
    let compiled = graph.compile().unwrap();
    let result = SequentialExecutor.invoke_with_metadata(&compiled, StrMap::new()).unwrap();
    assert_eq!(result.state.get("x"), Some(&text("a")));
    assert_eq!(result.state.get("b_saw_x"), Some(&Value::Bool(false)));
    assert_eq!(result.state.get("finish_saw_x"), Some(&Value::Bool(true)));
    assert_eq!(result.metadata.supersteps, 3);
}

#[test]
fn goto_overrides_plain_edges() {
    let mut graph = StateGraph::new();
    let jump = NodeOutput { patch: StrMap::new(), commands: vec![Command::Goto("finish".to_string())] };
    graph.add_node_with_runtime("start", Box::new(Emits(jump))).unwrap();
    graph.add_node("detour", Box::new(Writes("detour", "yes"))).unwrap();
    graph.add_node("finish", Box::new(Writes("status", "done"))).unwrap();
    graph.add_edge("start", "detour").unwrap();
    graph.add_edge("detour", "finish").unwrap();
    graph.set_entry_point("start");
    graph.set_finish_point("finish");
    let compiled = graph.compile().unwrap();
    let state = SequentialExecutor.invoke(&compiled, StrMap::new()).unwrap();
    assert_eq!(state.get("detour"), None);
    assert_eq!(state.get("status"), Some(&text("done")));
}

#[test]
fn failing_node_and_dead_end_are_reported() {
    let mut graph = StateGraph::new();
    graph.add_node("start", Box::new(Fails)).unwrap();
    graph.add_node("finish", Box::new(Writes("status", "done"))).unwrap();
    graph.add_edge("start", "finish").unwrap();
    graph.set_entry_point("start");
    graph.set_finish_point("finish");
    let compiled = graph.compile().unwrap();
    let err = SequentialExecutor.invoke(&compiled, StrMap::new()).unwrap_err();
    assert!(matches!(err, GraphError::NodeExecutionFailed { node, reason } if node == "start" && reason == "boom"));

    let mut graph = StateGraph::new();
    let jump = NodeOutput { patch: StrMap::new(), commands: vec![Command::Goto("mid".to_string())] };
    graph.add_node_with_runtime("start", Box::new(Emits(jump))).unwrap();
    graph.add_node("mid", Box::new(Writes("s", "1"))).unwrap();
    graph.add_node("finish", Box::new(Writes("status", "done"))).unwrap();
    graph.add_edge("start", "finish").unwrap();
    graph.set_entry_point("start");
    graph.set_finish_point("finish");
    let compiled = graph.compile().unwrap();
    let err = SequentialExecutor.invoke(&compiled, StrMap::new()).unwrap_err();
    assert!(matches!(err, GraphError::DidNotReachFinish(f) if f == "finish"));
}

#[test]
fn event_lines_are_joined_by_line_breaks() {
    assert_eq!(join_lines(&vec![]), "");
    assert_eq!(join_lines(&vec!["{\"a\":1}".to_string()]), "{\"a\":1}");
    assert_eq!(join_lines(&vec!["x".to_string(), "y".to_string(), "z".to_string()]), "x\ny\nz");
}

#[test]
fn run_metadata_counts_supersteps_and_bumps_written_channels() {
    let mut graph = StateGraph::new();
    graph.add_node("start", Box::new(Writes("events", "tick"))).unwrap();
    graph.add_node("finish", Box::new(Writes("status", "done"))).unwrap();
    graph.add_edge("start", "finish").unwrap();
    graph.set_entry_point("start");
    graph.set_finish_point("finish");
    graph.add_channel("events", Box::new(Topic));
    let compiled = graph.compile().unwrap();
    let mut versions = StrMap::new();
    versions.insert("events".to_string(), 4u64);
    let result = SequentialExecutor
        .invoke_with_runtime_context_and_policy(&compiled, StrMap::new(), StrMap::new(), versions, &CommandPolicy::default())
        .unwrap();
    assert_eq!(result.metadata.supersteps, 2);
    assert_eq!(result.metadata.channel_versions.get("events"), Some(&5u64));
    assert_eq!(result.metadata.versions_seen.get("events"), Some(&5u64));
    assert_eq!(result.metadata.channel_versions.get("status"), None);
}
