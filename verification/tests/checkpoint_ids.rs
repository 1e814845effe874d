use langgraph::bridge::{
    materialize_checkpoint_state, next_checkpoint_id, parse_checkpoint_suffix, select_latest_checkpoint,
    CheckpointBridgeError, CheckpointedSequentialExecutor,
};
use langgraph::channel::Topic;
use langgraph::checkpoint::{Checkpoint, CheckpointError, CheckpointSaver, CheckpointStore, InMemorySaver, PendingWrite};
use langgraph::error::GraphError;
use langgraph::graph::{CompiledGraph, StateGraph, StateNodeFn};
use langgraph::json::{StrMap, Value};
use langgraph::state::{State, StatePatch};

struct Node<F>(F);

impl<F: Fn(&State) -> Result<StatePatch, String>> StateNodeFn for Node<F> {
    fn run(&self, state: &State) -> Result<StatePatch, String> {
        (self.0)(state)
    }
}

fn text(s: &str) -> Value {
    Value::String(s.to_string())
}

fn map(pairs: Vec<(&str, Value)>) -> StrMap<Value> {
    let mut m = StrMap::new();
    for (k, v) in pairs {
        m.insert(k.to_string(), v);
    }
    m
}

fn checkpoint(thread: &str, id: &str) -> Checkpoint {
    Checkpoint {
        thread_id: thread.to_string(),
        checkpoint_id: id.to_string(),
        state: StrMap::new(),
        versions_seen: StrMap::new(),
        pending_writes: vec![],
    }
}

fn topic_graph() -> CompiledGraph {
    let mut graph = StateGraph::new();
    graph.add_node("start", Box::new(Node(|_s: &State| Ok(map(vec![("events", text("tick"))]))))).unwrap();
    graph.add_node("finish", Box::new(Node(|_s: &State| Ok(StrMap::new())))).unwrap();
    graph.add_edge("start", "finish").unwrap();
    graph.set_entry_point("start");
    graph.set_finish_point("finish");
    graph.add_channel("events", Box::new(Topic));
    graph.compile().unwrap()
}

#[test]
fn checkpoint_suffix_reads_the_number_after_the_prefix() {
    assert_eq!(parse_checkpoint_suffix("cp-0042"), Some(42));
    assert_eq!(parse_checkpoint_suffix("cp-10000"), Some(10000));
    assert_eq!(parse_checkpoint_suffix("cp-+7"), Some(7));
    assert_eq!(parse_checkpoint_suffix("cp-"), None);
    assert_eq!(parse_checkpoint_suffix("cp-1a"), None);
    assert_eq!(parse_checkpoint_suffix("xp-0001"), None);
    assert_eq!(parse_checkpoint_suffix("cp-18446744073709551615"), Some(u64::MAX));
    assert_eq!(parse_checkpoint_suffix("cp-18446744073709551616"), None);
}

#[test]
fn next_checkpoint_id_follows_the_largest_number() {
    assert_eq!(next_checkpoint_id(&vec![]), Some(String::from("cp-0001")));
    let cps = vec![checkpoint("t", "cp-0009"), checkpoint("t", "other"), checkpoint("t", "cp-0003")];
    assert_eq!(next_checkpoint_id(&cps), Some(String::from("cp-0010")));
    assert_eq!(next_checkpoint_id(&vec![checkpoint("t", "cp-12345")]), Some(String::from("cp-12346")));
    assert_eq!(next_checkpoint_id(&vec![checkpoint("t", "cp-0000")]), Some(String::from("cp-0001")));
    assert_eq!(next_checkpoint_id(&vec![checkpoint("t", "cp-18446744073709551615")]), None);
}

#[test]
fn next_checkpoint_id_never_repeats_an_existing_id() {
    let cps = vec![checkpoint("t", "cp-0001"), checkpoint("t", "cp-2"), checkpoint("t", "cp-0002x")];
    let next = next_checkpoint_id(&cps).unwrap();
    assert_eq!(next, "cp-0003");
    assert!(cps.iter().all(|c| c.checkpoint_id != next));
}

#[test]
fn latest_checkpoint_prefers_numbers_then_text() {
    let picked = select_latest_checkpoint(vec![
        checkpoint("t", "cp-0002"),
        checkpoint("t", "cp-0010"),
        checkpoint("t", "zzz"),
    ])
    .unwrap();
    assert_eq!(picked.checkpoint_id, "cp-0010");

    let unnumbered = select_latest_checkpoint(vec![checkpoint("t", "b"), checkpoint("t", "a")]).unwrap();
    assert_eq!(unnumbered.checkpoint_id, "b");

    let tie = select_latest_checkpoint(vec![checkpoint("t", "cp-1"), checkpoint("t", "cp-01")]).unwrap();
    assert_eq!(tie.checkpoint_id, "cp-01");

    assert!(select_latest_checkpoint(vec![]).is_none());
}

#[test]
fn materialize_without_pending_writes_keeps_the_snapshot() {
    let graph = topic_graph();
    let mut cp = checkpoint("t", "cp-0001");
    cp.state = map(vec![("events", Value::Array(vec![text("x")]))]);
    cp.versions_seen.insert(String::from("events"), 4);
    let (state, versions) = materialize_checkpoint_state(&graph, cp).unwrap();
    assert_eq!(state.get("events"), Some(&Value::Array(vec![text("x")])));
    assert_eq!(versions.get("events"), Some(&4));
}

#[test]
fn materialize_applies_pending_writes_and_bumps_versions() {
    let graph = topic_graph();
    let mut cp = checkpoint("t", "cp-0001");
    cp.state = map(vec![("events", Value::Array(vec![text("x")]))]);
    cp.versions_seen.insert(String::from("events"), 4);
    cp.pending_writes = vec![
        PendingWrite { node: String::from("a"), patch: map(vec![("events", text("y"))]) },
        PendingWrite { node: String::from("b"), patch: map(vec![("note", text("n"))]) },
    ];
    let (state, versions) = materialize_checkpoint_state(&graph, cp).unwrap();
    assert_eq!(state.get("events"), Some(&Value::Array(vec![text("x"), text("y")])));
    assert_eq!(state.get("note"), Some(&text("n")));
    assert_eq!(versions.get("events"), Some(&5));
    assert_eq!(versions.get("note"), None);
}

#[test]
fn store_put_get_list_and_conflict() {
    let mut store = CheckpointStore::new();
    assert!(store.put(checkpoint("t1", "cp-0002")).is_ok());
    assert!(store.put(checkpoint("t1", "cp-0001")).is_ok());
    assert!(store.put(checkpoint("t2", "cp-0001")).is_ok());
    let err = store.put(checkpoint("t1", "cp-0001")).unwrap_err();
    assert_eq!(err, CheckpointError::Conflict(String::from("thread `t1` already has checkpoint `cp-0001`")));
    assert_eq!(err.message(), "checkpoint conflict: `thread `t1` already has checkpoint `cp-0001``");

    assert_eq!(store.get("t1", "cp-0002").map(|c| c.checkpoint_id), Some(String::from("cp-0002")));
    assert!(store.get("t1", "cp-0003").is_none());
    assert!(store.get("t3", "cp-0001").is_none());
    let ids: Vec<String> = store.list("t1").into_iter().map(|c| c.checkpoint_id).collect();
    assert_eq!(ids, vec![String::from("cp-0001"), String::from("cp-0002")]);
    assert!(store.list("t3").is_empty());
}

#[test]
fn in_memory_saver_reports_conflicts_and_keeps_threads_apart() {
    let saver = InMemorySaver::new();
    saver.put(checkpoint("a", "cp-0001")).unwrap();
    saver.put(checkpoint("b", "cp-0001")).unwrap();
    assert!(matches!(saver.put(checkpoint("a", "cp-0001")), Err(CheckpointError::Conflict(_))));
    assert_eq!(saver.list("a").unwrap().len(), 1);
    assert_eq!(saver.list("b").unwrap().len(), 1);
    assert_eq!(saver.get("a", "cp-0001").unwrap().map(|c| c.thread_id), Some(String::from("a")));
    assert_eq!(CheckpointError::Storage(String::from("disk")).message(), "storage error: disk");
}

#[test]
fn resume_reports_missing_checkpoint_and_empty_thread() {
    let saver = InMemorySaver::new();
    let runner = CheckpointedSequentialExecutor::new(&saver);
    let graph = topic_graph();

    let missing = runner.resume(&graph, "thread-x", "cp-0009").unwrap_err();
    assert!(matches!(
        &missing,
        CheckpointBridgeError::CheckpointNotFound { thread_id, checkpoint_id }
            if thread_id == "thread-x" && checkpoint_id == "cp-0009"
    ));
    assert_eq!(missing.message(), "checkpoint `cp-0009` not found for thread `thread-x`");

    let empty = runner.resume_latest(&graph, "thread-y").unwrap_err();
    assert!(matches!(&empty, CheckpointBridgeError::EmptyThread(t) if t == "thread-y"));
    assert_eq!(empty.message(), "thread `thread-y` has no checkpoints to resume from");
}

#[test]
fn bridge_error_messages_describe_each_case() {
    let interrupted = CheckpointBridgeError::Interrupted {
        thread_id: String::from("t"),
        checkpoint_id: String::from("cp-0003"),
        node: String::from("gate"),
        superstep: 12,
    };
    assert_eq!(interrupted.message(), "thread `t` interrupted by node `gate` in superstep 12; resume from checkpoint `cp-0003`");
    let rejected = CheckpointBridgeError::CommandAuditRejected {
        thread_id: String::from("t"),
        node: String::from("n"),
        superstep: 1,
        reason: String::from("no"),
    };
    assert_eq!(rejected.message(), "command audit rejected node `n` in superstep 1 of thread `t`: no");
    let graph = CheckpointBridgeError::Graph(GraphError::NodeNotFound(String::from("x")));
    assert_eq!(graph.message(), "node not found: `x`");
}

#[test]
fn consecutive_runs_on_a_thread_number_their_checkpoints() {
    let saver = InMemorySaver::new();
    let runner = CheckpointedSequentialExecutor::new(&saver);
    let graph = topic_graph();
    let first = runner.invoke_thread(&graph, "t", StrMap::new()).unwrap();
    let second = runner.resume_latest(&graph, "t").unwrap();
    let third = runner.resume(&graph, "t", &first.checkpoint_id).unwrap();
    assert_eq!(first.checkpoint_id, "cp-0001");
    assert_eq!(second.checkpoint_id, "cp-0002");
    assert_eq!(third.checkpoint_id, "cp-0003");
    assert_eq!(third.execution.state.get("events"), Some(&Value::Array(vec![text("tick"), text("tick")])));
}

#[test]
fn stream_thread_records_events_and_checkpoint() {
    let saver = InMemorySaver::new();
    let runner = CheckpointedSequentialExecutor::new(&saver);
    let graph = topic_graph();
    let streamed = runner.stream_thread(&graph, "s", StrMap::new()).unwrap();
    assert!(!streamed.execution.events.is_empty());
    assert!(streamed.execution.interrupt.is_none());
    let stored = saver.get("s", &streamed.checkpoint_id).unwrap().unwrap();
    assert_eq!(stored.versions_seen.get("events"), Some(&1));
}
