use langgraph::channel::{BinaryOp, BinaryOperatorAggregate, LastValue, Topic};
use langgraph::command_policy::CommandPolicy;
use langgraph::error::GraphError;
use langgraph::executor::SequentialExecutor;
use langgraph::graph::{RouteFn, RuntimeNodeFn, StateGraph, StateNodeFn};
use langgraph::json::{StrMap, Value};
use langgraph::runtime::{Command, NodeOutput, RuntimeContext};
use langgraph::state::{State, StatePatch};

struct Node<F>(F);

impl<F: Fn(&State) -> Result<StatePatch, String>> StateNodeFn for Node<F> {
    fn run(&self, state: &State) -> Result<StatePatch, String> {
        (self.0)(state)
    }
}

struct RtNode<F>(F);

impl<F: Fn(&State, &RuntimeContext) -> Result<NodeOutput, String>> RuntimeNodeFn for RtNode<F> {
    fn run(&self, state: &State, runtime_context: &RuntimeContext) -> Result<NodeOutput, String> {
        (self.0)(state, runtime_context)
    }
}

struct Router<F>(F);

impl<F: Fn(&State, &RuntimeContext) -> Result<Vec<String>, String>> RouteFn for Router<F> {
    fn route(&self, state: &State, runtime_context: &RuntimeContext) -> Result<Vec<String>, String> {
        (self.0)(state, runtime_context)
    }
}

struct Op<F>(F);

impl<F: Fn(&Value, &Value) -> Value> BinaryOp for Op<F> {
    fn apply(&self, left: &Value, right: &Value) -> Value {
        (self.0)(left, right)
    }
}

fn text(s: &str) -> Value {
    Value::String(s.to_string())
}

fn texts(items: &[&str]) -> Value {
    Value::Array(items.iter().map(|s| text(s)).collect())
}

fn map(pairs: Vec<(&str, Value)>) -> StrMap<Value> {
    let mut m = StrMap::new();
    for (k, v) in pairs {
        m.insert(k.to_string(), v);
    }
    m
}

fn empty_node() -> Box<dyn StateNodeFn> {
    Box::new(Node(|_s: &State| Ok(StrMap::new())))
}

fn writer(field: &'static str, value: Value) -> Box<dyn StateNodeFn> {
    Box::new(Node(move |_s: &State| Ok(map(vec![(field, value.copy())]))))
}

fn events_len(state: &State) -> i64 {
    state.get("events").and_then(|v| v.as_array()).map_or(0, |items| items.len() as i64)
}

#[test]
fn invoke_matches_readme_style_example() {
    let mut graph = StateGraph::new();
    graph.add_node("node_a", writer("text", text("a"))).unwrap();
    graph.add_node("node_b", writer("text", text("b"))).unwrap();
    graph.add_edge("node_a", "node_b").unwrap();
    graph.set_entry_point("node_a");
    graph.set_finish_point("node_b");
    graph.add_reducer(
        "text",
        Box::new(Op(|left: &Value, right: &Value| {
            let lhs = left.as_str().map(|s| s.as_str()).unwrap_or_default();
            let rhs = right.as_str().map(|s| s.as_str()).unwrap_or_default();
            text(&format!("{lhs}{rhs}"))
        })),
    );

    let initial = map(vec![("text", text(""))]);
    let compiled = graph.compile().unwrap();
    let final_state = SequentialExecutor.invoke(&compiled, initial).unwrap();

    assert_eq!(final_state.get("text"), Some(&text("ab")));
}

#[test]
fn compile_rejects_duplicate_nodes() {
    let mut graph = StateGraph::new();
    graph.add_node("node_a", empty_node()).unwrap();
    let err = graph.add_node("node_a", empty_node()).unwrap_err();
    assert!(matches!(err, GraphError::DuplicateNode(_)));
}

#[test]
fn compile_rejects_finish_with_outgoing_edges() {
    let mut graph = StateGraph::new();
    graph.add_node("start", empty_node()).unwrap();
    graph.add_node("finish", empty_node()).unwrap();
    graph.add_node("tail", empty_node()).unwrap();
    graph.add_edge("start", "finish").unwrap();
    graph.add_edge("finish", "tail").unwrap();
    graph.set_entry_point("start");
    graph.set_finish_point("finish");

    assert!(matches!(
        graph.compile(),
        Err(GraphError::FinishHasOutgoingEdges(node)) if node == "finish"
    ));
}

#[test]
fn invoke_supports_branch_merge_with_channel_aggregate() {
    let mut graph = StateGraph::new();
    graph.add_node("start", empty_node()).unwrap();
    graph.add_node("branch_a", writer("sum", Value::Number(1))).unwrap();
    graph.add_node("branch_b", writer("sum", Value::Number(2))).unwrap();
    graph.add_node("finish", writer("done", Value::Bool(true))).unwrap();

    graph.add_edge("start", "branch_a").unwrap();
    graph.add_edge("start", "branch_b").unwrap();
    graph.add_edge("branch_a", "finish").unwrap();
    graph.add_edge("branch_b", "finish").unwrap();
    graph.set_entry_point("start");
    graph.set_finish_point("finish");
    graph.add_channel(
        "sum",
        Box::new(BinaryOperatorAggregate::new(Box::new(Op(|left: &Value, right: &Value| {
            Value::Number(left.as_i64().unwrap_or_default() + right.as_i64().unwrap_or_default())
        })))),
    );

    let compiled = graph.compile().unwrap();
    let final_state = SequentialExecutor.invoke(&compiled, StrMap::new()).unwrap();
    assert_eq!(final_state.get("sum"), Some(&Value::Number(3)));
    assert_eq!(final_state.get("done"), Some(&Value::Bool(true)));
}

#[test]
fn invoke_last_value_channel_rejects_multiple_writes_in_same_superstep() {
    let mut graph = StateGraph::new();
    graph.add_node("start", empty_node()).unwrap();
    graph.add_node("branch_a", writer("status", text("a"))).unwrap();
    graph.add_node("branch_b", writer("status", text("b"))).unwrap();
    graph.add_node("finish", empty_node()).unwrap();

    graph.add_edge("start", "branch_a").unwrap();
    graph.add_edge("start", "branch_b").unwrap();
    graph.add_edge("branch_a", "finish").unwrap();
    graph.add_edge("branch_b", "finish").unwrap();
    graph.set_entry_point("start");
    graph.set_finish_point("finish");
    graph.add_channel("status", Box::new(LastValue));

    let compiled = graph.compile().unwrap();
    let err = SequentialExecutor.invoke(&compiled, StrMap::new()).unwrap_err();
    assert!(matches!(err, GraphError::ChannelMergeFailed { field, .. } if field == "status"));
}

#[test]
fn invoke_reports_the_first_refusing_channel_in_field_order() {
    let mut graph = StateGraph::new();
    graph.add_node("start", empty_node()).unwrap();
    graph
        .add_node("branch_a", Box::new(Node(|_s: &State| Ok(map(vec![("zeta", text("a")), ("alpha", text("a"))])))))
        .unwrap();
    graph
        .add_node("branch_b", Box::new(Node(|_s: &State| Ok(map(vec![("zeta", text("b")), ("alpha", text("b"))])))))
        .unwrap();
    graph.add_node("finish", empty_node()).unwrap();

    graph.add_edge("start", "branch_a").unwrap();
    graph.add_edge("start", "branch_b").unwrap();
    graph.add_edge("branch_a", "finish").unwrap();
    graph.add_edge("branch_b", "finish").unwrap();
    graph.set_entry_point("start");
    graph.set_finish_point("finish");
    graph.add_channel("zeta", Box::new(LastValue));
    graph.add_channel("alpha", Box::new(LastValue));

    let compiled = graph.compile().unwrap();
    let err = SequentialExecutor.invoke(&compiled, StrMap::new()).unwrap_err();
    assert!(matches!(err, GraphError::ChannelMergeFailed { field, .. } if field == "alpha"));
}

#[test]
fn invoke_does_not_exit_early_when_finish_is_parallel_with_other_work() {
    let mut graph = StateGraph::new();
    graph.add_node("start", empty_node()).unwrap();
    graph.add_node("slow_1", writer("trail", text("slow_1"))).unwrap();
    graph.add_node("slow_2", writer("trail", text("slow_2"))).unwrap();
    graph.add_node("finish", writer("done", Value::Bool(true))).unwrap();

    graph.add_edge("start", "finish").unwrap();
    graph.add_edge("start", "slow_1").unwrap();
    graph.add_edge("slow_1", "slow_2").unwrap();
    graph.add_edge("slow_2", "finish").unwrap();
    graph.set_entry_point("start");
    graph.set_finish_point("finish");
    graph.add_channel("trail", Box::new(Topic));

    let compiled = graph.compile().unwrap();
    let final_state = SequentialExecutor.invoke(&compiled, StrMap::new()).unwrap();
    assert_eq!(final_state.get("done"), Some(&Value::Bool(true)));
    assert_eq!(final_state.get("trail"), Some(&texts(&["slow_1", "slow_2"])));
}

#[test]
fn invoke_tracks_channel_versions_across_supersteps() {
    let mut graph = StateGraph::new();
    graph.add_node("start", writer("events", text("seed"))).unwrap();
    graph.add_node("middle", writer("events", text("middle"))).unwrap();
    graph.add_node("finish", empty_node()).unwrap();
    graph.add_edge("start", "middle").unwrap();
    graph.add_edge("middle", "finish").unwrap();
    graph.set_entry_point("start");
    graph.set_finish_point("finish");
    graph.add_channel("events", Box::new(Topic));

    let compiled = graph.compile().unwrap();
    let result = SequentialExecutor.invoke_with_metadata(&compiled, StrMap::new()).unwrap();

    assert_eq!(result.state.get("events"), Some(&texts(&["seed", "middle"])));
    assert_eq!(result.metadata.channel_versions.get("events"), Some(&2));
    assert_eq!(result.metadata.versions_seen.get("events"), Some(&2));
    assert_eq!(result.metadata.supersteps, 3);
}

#[test]
fn invoke_metadata_tracks_only_channel_fields() {
    let mut graph = StateGraph::new();
    graph
        .add_node(
            "start",
            Box::new(Node(|_s: &State| Ok(map(vec![("events", text("seed")), ("note", text("v1"))])))),
        )
        .unwrap();
    graph.add_node("finish", empty_node()).unwrap();
    graph.add_edge("start", "finish").unwrap();
    graph.set_entry_point("start");
    graph.set_finish_point("finish");
    graph.add_channel("events", Box::new(Topic));

    let compiled = graph.compile().unwrap();
    let result = SequentialExecutor.invoke_with_metadata(&compiled, StrMap::new()).unwrap();

    assert_eq!(result.metadata.channel_versions.get("events"), Some(&1));
    assert_eq!(result.metadata.versions_seen.get("events"), Some(&1));
    assert_eq!(result.metadata.channel_versions.get("note"), None);
    assert_eq!(result.metadata.versions_seen.get("note"), None);
}

#[test]
fn topic_channel_appends_across_rounds_with_snapshot_consistency() {
    let mut graph = StateGraph::new();
    graph.add_node("start", writer("events", text("seed"))).unwrap();
    graph
        .add_node(
            "branch_a",
            Box::new(Node(|state: &State| {
                Ok(map(vec![("events", text("a")), ("seen_by_a", Value::Number(events_len(state)))]))
            })),
        )
        .unwrap();
    graph
        .add_node(
            "branch_b",
            Box::new(Node(|state: &State| {
                Ok(map(vec![("events", text("b")), ("seen_by_b", Value::Number(events_len(state)))]))
            })),
        )
        .unwrap();
    graph
        .add_node(
            "collector",
            Box::new(Node(|state: &State| {
                Ok(map(vec![("events", text("c")), ("seen_by_collector", Value::Number(events_len(state)))]))
            })),
        )
        .unwrap();
    graph.add_node("finish", empty_node()).unwrap();

    graph.add_edge("start", "branch_a").unwrap();
    graph.add_edge("start", "branch_b").unwrap();
    graph.add_edge("branch_a", "collector").unwrap();
    graph.add_edge("branch_b", "collector").unwrap();
    graph.add_edge("collector", "finish").unwrap();
    graph.set_entry_point("start");
    graph.set_finish_point("finish");
    graph.add_channel("events", Box::new(Topic));

    let compiled = graph.compile().unwrap();
    let final_state = SequentialExecutor.invoke(&compiled, StrMap::new()).unwrap();

    assert_eq!(final_state.get("events"), Some(&texts(&["seed", "a", "b", "c"])));
    assert_eq!(final_state.get("seen_by_a"), Some(&Value::Number(1)));
    assert_eq!(final_state.get("seen_by_b"), Some(&Value::Number(1)));
    assert_eq!(final_state.get("seen_by_collector"), Some(&Value::Number(3)));
}

#[test]
fn invoke_with_runtime_context_injects_read_only_values_to_nodes() {
    let mut graph = StateGraph::new();
    graph
        .add_node_with_runtime(
            "start",
            Box::new(RtNode(|_state: &State, runtime_context: &RuntimeContext| {
                let tenant = runtime_context
                    .get("tenant")
                    .and_then(|v| v.as_str())
                    .map(|s| s.as_str())
                    .unwrap_or("unknown");
                Ok(NodeOutput::from_patch(map(vec![("tenant", text(tenant))])))
            })),
        )
        .unwrap();
    graph.add_node("finish", empty_node()).unwrap();
    graph.add_edge("start", "finish").unwrap();
    graph.set_entry_point("start");
    graph.set_finish_point("finish");

    let compiled = graph.compile().unwrap();
    let runtime_context = map(vec![("tenant", text("acme"))]);
    let result = SequentialExecutor
        .invoke_with_runtime_context(&compiled, StrMap::new(), runtime_context)
        .unwrap();

    assert_eq!(result.interrupt, None);
    assert_eq!(result.state.get("tenant"), Some(&text("acme")));
}

#[test]
fn invoke_with_runtime_context_supports_interrupt_command() {
    let mut graph = StateGraph::new();
    graph
        .add_node_with_runtime(
            "gate",
            Box::new(RtNode(|_state: &State, _context: &RuntimeContext| {
                Ok(NodeOutput::interrupt(map(vec![("status", text("paused"))])))
            })),
        )
        .unwrap();
    graph.set_entry_point("gate");
    graph.set_finish_point("gate");

    let compiled = graph.compile().unwrap();
    let result = SequentialExecutor
        .invoke_with_runtime_context(&compiled, StrMap::new(), StrMap::new())
        .unwrap();

    assert_eq!(result.state.get("status"), Some(&text("paused")));
    assert_eq!(result.interrupt.as_ref().map(|signal| signal.node.as_str()), Some("gate"));
    assert_eq!(result.interrupt.as_ref().map(|signal| signal.superstep), Some(1));

    let interrupted = SequentialExecutor.invoke_with_metadata(&compiled, StrMap::new()).unwrap_err();
    assert!(matches!(interrupted, GraphError::Interrupted { node } if node == "gate"));
}

fn route_of(state: &State) -> String {
    state
        .get("route")
        .and_then(|v| v.as_str())
        .map(|s| s.to_string())
        .unwrap_or_else(|| String::from("left"))
}

#[test]
fn invoke_supports_conditional_edges_routing() {
    let mut graph = StateGraph::new();
    graph
        .add_node("router", Box::new(Node(|state: &State| Ok(map(vec![("route", text(&route_of(state)))])))))
        .unwrap();
    graph.add_node("left", writer("picked", text("L"))).unwrap();
    graph.add_node("right", writer("picked", text("R"))).unwrap();
    graph.add_node("finish", empty_node()).unwrap();
    graph.add_edge("left", "finish").unwrap();
    graph.add_edge("right", "finish").unwrap();
    graph.add_conditional_edges(
        "router",
        &["left", "right"],
        Box::new(Router(|state: &State, _context: &RuntimeContext| Ok(vec![route_of(state)]))),
    );
    graph.set_entry_point("router");
    graph.set_finish_point("finish");

    let compiled = graph.compile().unwrap();
    let initial = map(vec![("route", text("right"))]);
    let final_state = SequentialExecutor.invoke(&compiled, initial).unwrap();
    assert_eq!(final_state.get("picked"), Some(&text("R")));
}

#[test]
fn invoke_command_goto_overrides_conditional_route() {
    let mut graph = StateGraph::new();
    graph
        .add_node_with_runtime(
            "router",
            Box::new(RtNode(|_state: &State, _context: &RuntimeContext| {
                Ok(NodeOutput::goto(StrMap::new(), "right"))
            })),
        )
        .unwrap();
    graph.add_node("left", writer("picked", text("L"))).unwrap();
    graph.add_node("right", writer("picked", text("R"))).unwrap();
    graph.add_node("finish", empty_node()).unwrap();
    graph.add_edge("left", "finish").unwrap();
    graph.add_edge("right", "finish").unwrap();
    graph.add_conditional_edges(
        "router",
        &["left", "right"],
        Box::new(Router(|_state: &State, _context: &RuntimeContext| Ok(vec![String::from("left")]))),
    );
    graph.set_entry_point("router");
    graph.set_finish_point("finish");

    let compiled = graph.compile().unwrap();
    let final_state = SequentialExecutor.invoke(&compiled, StrMap::new()).unwrap();
    assert_eq!(final_state.get("picked"), Some(&text("R")));
}

#[test]
fn invoke_rejects_invalid_conditional_target_from_router() {
    let mut graph = StateGraph::new();
    graph.add_node("router", empty_node()).unwrap();
    graph.add_node("left", empty_node()).unwrap();
    graph.add_node("finish", empty_node()).unwrap();
    graph.add_edge("left", "finish").unwrap();
    graph.add_conditional_edges(
        "router",
        &["left"],
        Box::new(Router(|_state: &State, _context: &RuntimeContext| Ok(vec![String::from("ghost")]))),
    );
    graph.set_entry_point("router");
    graph.set_finish_point("finish");

    let compiled = graph.compile().unwrap();
    let err = SequentialExecutor.invoke(&compiled, StrMap::new()).unwrap_err();
    assert!(matches!(
        err,
        GraphError::InvalidConditionalTarget { from, to } if from == "router" && to == "ghost"
    ));
}

#[test]
fn invoke_supports_goto_many_targets() {
    let mut graph = StateGraph::new();
    graph
        .add_node_with_runtime(
            "router",
            Box::new(RtNode(|_state: &State, _context: &RuntimeContext| {
                Ok(NodeOutput::goto_many(StrMap::new(), &["left", "right"]))
            })),
        )
        .unwrap();
    graph.add_node("left", writer("marks", text("L"))).unwrap();
    graph.add_node("right", writer("marks", text("R"))).unwrap();
    graph.add_node("finish", empty_node()).unwrap();
    graph.add_edge("left", "finish").unwrap();
    graph.add_edge("right", "finish").unwrap();
    graph.add_conditional_edges(
        "router",
        &["left", "right"],
        Box::new(Router(|_state: &State, _context: &RuntimeContext| Ok(Vec::new()))),
    );
    graph.set_entry_point("router");
    graph.set_finish_point("finish");
    graph.add_channel("marks", Box::new(Topic));

    let compiled = graph.compile().unwrap();
    let result = SequentialExecutor
        .invoke_with_runtime_context(&compiled, StrMap::new(), StrMap::new())
        .unwrap();
    assert_eq!(result.state.get("marks"), Some(&texts(&["L", "R"])));
}

#[test]
fn invoke_records_command_trace_for_composed_commands() {
    let mut graph = StateGraph::new();
    graph
        .add_node_with_runtime(
            "router",
            Box::new(RtNode(|_state: &State, _context: &RuntimeContext| {
                Ok(NodeOutput::from_patch(StrMap::new()).with_commands(vec![
                    Command::Goto(String::from("left")),
                    Command::GotoMany(vec![String::from("right")]),
                ]))
            })),
        )
        .unwrap();
    graph.add_node("left", empty_node()).unwrap();
    graph.add_node("right", empty_node()).unwrap();
    graph.add_node("finish", empty_node()).unwrap();
    graph.add_edge("left", "finish").unwrap();
    graph.add_edge("right", "finish").unwrap();
    graph.add_conditional_edges(
        "router",
        &["left", "right"],
        Box::new(Router(|_state: &State, _context: &RuntimeContext| Ok(Vec::new()))),
    );
    graph.set_entry_point("router");
    graph.set_finish_point("finish");

    let compiled = graph.compile().unwrap();
    let result = SequentialExecutor
        .invoke_with_runtime_context(&compiled, StrMap::new(), StrMap::new())
        .unwrap();
    assert_eq!(result.interrupt, None);
    assert_eq!(result.metadata.command_trace.len(), 2);
    assert_eq!(result.metadata.command_trace[0].node, "router");
    assert_eq!(result.metadata.command_trace[0].superstep, 1);
    assert!(matches!(
        result.metadata.command_trace[0].command,
        Command::Goto(ref target) if target == "left"
    ));
    assert!(matches!(
        result.metadata.command_trace[1].command,
        Command::GotoMany(ref targets) if targets == &vec![String::from("right")]
    ));
}

#[test]
fn invoke_rejects_goto_many_when_policy_disables_it() {
    let mut graph = StateGraph::new();
    graph
        .add_node_with_runtime(
            "router",
            Box::new(RtNode(|_state: &State, _context: &RuntimeContext| {
                Ok(NodeOutput::goto_many(StrMap::new(), &["left", "right"]))
            })),
        )
        .unwrap();
    graph.add_node("left", empty_node()).unwrap();
    graph.add_node("right", empty_node()).unwrap();
    graph.add_node("finish", empty_node()).unwrap();
    graph.add_edge("left", "finish").unwrap();
    graph.add_edge("right", "finish").unwrap();
    graph.add_conditional_edges(
        "router",
        &["left", "right"],
        Box::new(Router(|_state: &State, _context: &RuntimeContext| Ok(Vec::new()))),
    );
    graph.set_entry_point("router");
    graph.set_finish_point("finish");

    let compiled = graph.compile().unwrap();
    let policy = CommandPolicy { allow_goto_many: false, ..CommandPolicy::default() };
    let err = SequentialExecutor
        .invoke_with_runtime_context_and_policy(&compiled, StrMap::new(), StrMap::new(), StrMap::new(), &policy)
        .unwrap_err();

    assert!(matches!(
        err,
        GraphError::CommandRejected { node, .. } if node == "router"
    ));
}

#[test]
fn invoke_rejects_mixed_interrupt_and_routing_when_policy_forbids() {
    let mut graph = StateGraph::new();
    graph
        .add_node_with_runtime(
            "router",
            Box::new(RtNode(|_state: &State, _context: &RuntimeContext| {
                Ok(NodeOutput::from_patch(StrMap::new())
                    .with_commands(vec![Command::Interrupt, Command::Goto(String::from("finish"))]))
            })),
        )
        .unwrap();
    graph.add_node("finish", empty_node()).unwrap();
    graph.add_conditional_edges(
        "router",
        &["finish"],
        Box::new(Router(|_state: &State, _context: &RuntimeContext| Ok(Vec::new()))),
    );
    graph.set_entry_point("router");
    graph.set_finish_point("finish");

    let compiled = graph.compile().unwrap();
    let policy = CommandPolicy { allow_interrupt_with_routing: false, ..CommandPolicy::default() };
    let err = SequentialExecutor
        .invoke_with_runtime_context_and_policy(&compiled, StrMap::new(), StrMap::new(), StrMap::new(), &policy)
        .unwrap_err();

    assert!(matches!(
        err,
        GraphError::CommandRejected { node, .. } if node == "router"
    ));
}

#[test]
fn invoke_keeps_every_key_of_the_initial_state() {
    let mut graph = StateGraph::new();
    graph
        .add_node("only", Box::new(Node(|_s: &State| Ok(map(vec![("written", text("x"))])))))
        .unwrap();
    graph.set_entry_point("only");
    graph.set_finish_point("only");
    let compiled = graph.compile().unwrap();
    let initial = map(vec![("kept", text("k")), ("other", Value::Null)]);
    let result = SequentialExecutor.invoke(&compiled, initial).unwrap();
    assert_eq!(result.get("kept"), Some(&text("k")));
    assert_eq!(result.get("other"), Some(&Value::Null));
    assert_eq!(result.get("written"), Some(&text("x")));
}
