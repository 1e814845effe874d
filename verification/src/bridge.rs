//! Running graphs on threads whose progress is kept as checkpoints.
//!
//! A thread's checkpoints are named `cp-` followed by a number of at least
//! four digits.  A new checkpoint takes the number after the largest one the
//! thread has; the latest checkpoint is the one with the largest number,
//! numbered ids coming after ids that carry no number.
use vstd::prelude::*;
use crate::channel::Slot;
use crate::checkpoint::{writes_view, Checkpoint, CheckpointError, CheckpointSaver, CheckpointView, PendingWrite};
use crate::command_policy::default_policy;
use crate::executor::{
    event_view, interrupt_ok, metadata_ok, metadata_view, run_metadata, run_error_ok, run_events, run_fails, run_outcome, StreamEvent, CommandTraceEvent, ExecutionResult, InterruptSignal, SequentialExecutor,
    StreamExecutionResult,
};
use crate::runtime::RuntimeContext;
use crate::error::{graph_error_message, GraphError};
use crate::graph::CompiledGraph;
use crate::json::{Json, StrMap, Value};
use crate::state::{bumped, incoming_json, written, json_map, apply_writes_with_versions, seen_after, versions_after, written_channels, writes_applied, State, StatePatch, VersionMap};
use crate::text::{
    concat, concat3, decimal, decimal_padded, u64_to_decimal, lemma_parse_decimal_padded, lemma_seq_lt_asymmetric, lemma_seq_lt_irreflexive,
    lemma_seq_lt_total, lemma_seq_lt_transitive, parse_u64, parse_u64_spec, seq_lt, starts_with, str_lt,
    u64_to_decimal_padded,
};

verus! {

/// The prefix of every checkpoint id this library makes.
pub open spec fn id_prefix() -> Seq<char> {
    seq!['c', 'p', '-']
}

/// The number an id carries: what follows `cp-`, read as `u64::from_str`
/// reads it.
pub open spec fn suffix_of(id: Seq<char>) -> Option<u64> {
    if id.len() >= 3 && id.subrange(0, 3) == id_prefix() {
        parse_u64_spec(id.subrange(3, id.len() as int))
    } else {
        None
    }
}

/// The id of checkpoint number `n`: `cp-` and the number, zero-padded to
/// four digits.
pub open spec fn checkpoint_id_for(n: nat) -> Seq<char> {
    id_prefix() + decimal_padded(n, 4)
}

/// The number of a checkpoint id: `cp-` followed by a number, read back.
pub fn parse_checkpoint_suffix(id: &str) -> (r: Option<u64>)
    ensures
        r == suffix_of(id@),
{
    proof {
        reveal_strlit("cp-");
        assert("cp-"@ =~= id_prefix());
    }
    if !starts_with(id, "cp-") {
        return None;
    }
    let len = id.unicode_len();
    let rest = id.substring_char(3, len);
    parse_u64(rest)
}

/// The largest number among the ids of `cps`, or 0 when none carries one.
pub open spec fn max_suffix(cps: Seq<Checkpoint>) -> nat
    decreases cps.len(),
{
    if cps.len() == 0 {
        0
    } else {
        let m = max_suffix(cps.drop_last());
        match suffix_of(cps.last().checkpoint_id@) {
            Some(n) => if n > m { n as nat } else { m },
            None => m,
        }
    }
}

proof fn lemma_max_suffix_bounds(cps: Seq<Checkpoint>)
    ensures
        max_suffix(cps) <= u64::MAX,
        forall|k: int| 0 <= k < cps.len() && (#[trigger] suffix_of(cps[k].checkpoint_id@)) is Some
            ==> suffix_of(cps[k].checkpoint_id@)->0 <= max_suffix(cps),
    decreases cps.len(),
{
    if cps.len() > 0 {
        lemma_max_suffix_bounds(cps.drop_last());
        assert forall|k: int| 0 <= k < cps.len() && (#[trigger] suffix_of(cps[k].checkpoint_id@)) is Some
            implies suffix_of(cps[k].checkpoint_id@)->0 <= max_suffix(cps) by {
            if k < cps.len() - 1 {
                assert(cps[k] == cps.drop_last()[k]);
            }
        }
    }
}

/// The largest number carried by an id of `cps` (0 when none carries one).
pub fn max_checkpoint_suffix(cps: &Vec<Checkpoint>) -> (m: u64)
    ensures
        m == max_suffix(cps@),
{
    let mut m: u64 = 0;
    let mut i: usize = 0;
    while i < cps.len()
        invariant
            i <= cps.len(),
            m == max_suffix(cps@.subrange(0, i as int)),
        decreases cps.len() - i,
    {
        proof {
            assert(cps@.subrange(0, i + 1).drop_last() =~= cps@.subrange(0, i as int));
        }
        match parse_checkpoint_suffix(cps[i].checkpoint_id.as_str()) {
            Some(n) => {
                if n > m {
                    m = n;
                }
            },
            None => {},
        }
        i = i + 1;
    }
    proof {
        assert(cps@.subrange(0, cps@.len() as int) =~= cps@);
    }
    m
}

/// The id of the checkpoint that follows `cps`: number one past the largest
/// number among their ids.  `None` when that number would not fit in a
/// `u64`.
pub fn next_checkpoint_id(cps: &Vec<Checkpoint>) -> (r: Option<String>)
    ensures
        r is None <==> max_suffix(cps@) == u64::MAX,
        r matches Some(id) ==> id@ == checkpoint_id_for(max_suffix(cps@) + 1),
{
    let m = max_checkpoint_suffix(cps);
    if m == u64::MAX {
        return None;
    }
    let digits = u64_to_decimal_padded(m + 1, 4);
    proof {
        reveal_strlit("cp-");
        assert("cp-"@ =~= id_prefix());
    }
    Some(concat("cp-", digits.as_str()))
}

/// A new checkpoint id differs from the id of every checkpoint it was made
/// from, and carries a number larger than every number they carry.
pub proof fn law_next_id_is_fresh(cps: Seq<Checkpoint>)
    requires
        max_suffix(cps) < u64::MAX,
    ensures
        suffix_of(checkpoint_id_for(max_suffix(cps) + 1)) == Some((max_suffix(cps) + 1) as u64),
        forall|k: int| 0 <= k < cps.len() ==> #[trigger] cps[k].checkpoint_id@ != checkpoint_id_for(max_suffix(cps) + 1),
        forall|k: int|
            0 <= k < cps.len() && (#[trigger] suffix_of(cps[k].checkpoint_id@)) is Some ==> suffix_of(
                cps[k].checkpoint_id@,
            )->0 < max_suffix(cps) + 1,
{
    let n = max_suffix(cps) + 1;
    let id = checkpoint_id_for(n);
    lemma_parse_decimal_padded(n, 4);
    assert(id.subrange(0, 3) =~= id_prefix());
    assert(id.subrange(3, id.len() as int) =~= decimal_padded(n, 4));
    lemma_max_suffix_bounds(cps);
}

/// Whether id `a` is ordered after id `b`: numbered ids by their numbers,
/// a numbered id after one without a number, and two ids without numbers by
/// their characters.
pub open spec fn newer(a: Seq<char>, b: Seq<char>) -> bool {
    match (suffix_of(a), suffix_of(b)) {
        (Some(x), Some(y)) => x > y,
        (Some(_), None) => true,
        (None, Some(_)) => false,
        (None, None) => seq_lt(b, a),
    }
}

proof fn lemma_newer_asymmetric(a: Seq<char>, b: Seq<char>)
    ensures
        newer(a, b) ==> !newer(b, a),
{
    lemma_seq_lt_asymmetric(a, b);
}

proof fn lemma_not_newer_transitive(a: Seq<char>, b: Seq<char>, c: Seq<char>)
    requires
        !newer(a, b),
        !newer(b, c),
    ensures
        !newer(a, c),
{
    lemma_seq_lt_total(a, b);
    lemma_seq_lt_total(b, c);
    lemma_seq_lt_total(a, c);
    if suffix_of(a) is None && suffix_of(b) is None && suffix_of(c) is None {
        if seq_lt(c, a) {
            if seq_lt(c, b) {
                lemma_seq_lt_asymmetric(c, b);
            } else if c == b {
            } else {
                lemma_seq_lt_transitive(b, c, a);
            }
        }
    }
}

/// The position of the checkpoint that `max_by` over `newer` picks: the
/// last of the maximal ones.
pub open spec fn latest_index(cps: Seq<Checkpoint>) -> int
    decreases cps.len(),
{
    if cps.len() <= 1 {
        0
    } else {
        let a = latest_index(cps.drop_last());
        if newer(cps[a].checkpoint_id@, cps.last().checkpoint_id@) {
            a
        } else {
            cps.len() - 1
        }
    }
}

/// The latest checkpoint is one of them, and no checkpoint is ordered
/// after it.
pub proof fn law_latest_is_maximal(cps: Seq<Checkpoint>)
    requires
        cps.len() > 0,
    ensures
        0 <= latest_index(cps) < cps.len(),
        forall|k: int| 0 <= k < cps.len() ==> !newer(#[trigger] cps[k].checkpoint_id@, cps[latest_index(cps)].checkpoint_id@),
    decreases cps.len(),
{
    if cps.len() > 1 {
        let p = cps.drop_last();
        law_latest_is_maximal(p);
        let a = latest_index(p);
        let last = cps.last().checkpoint_id@;
        assert(cps[a] == p[a]);
        if newer(cps[a].checkpoint_id@, last) {
            lemma_newer_asymmetric(cps[a].checkpoint_id@, last);
            assert forall|k: int| 0 <= k < cps.len() implies !newer(#[trigger] cps[k].checkpoint_id@, cps[a].checkpoint_id@) by {
                if k < cps.len() - 1 {
                    assert(cps[k] == p[k]);
                }
            }
        } else {
            assert forall|k: int| 0 <= k < cps.len() implies !newer(#[trigger] cps[k].checkpoint_id@, last) by {
                if k < cps.len() - 1 {
                    assert(cps[k] == p[k]);
                    lemma_not_newer_transitive(cps[k].checkpoint_id@, cps[a].checkpoint_id@, last);
                } else {
                    lemma_seq_lt_irreflexive(last);
                }
            }
        }
    } else {
        lemma_seq_lt_irreflexive(cps[0].checkpoint_id@);
    }
}

/// When no two listed checkpoints tie in the order (each pair is ordered
/// one way or the other), the latest checkpoint does not depend on the
/// order in which a saver lists them.
pub proof fn law_latest_ignores_listing_order(a: Seq<Checkpoint>, b: Seq<Checkpoint>)
    requires
        a.len() > 0,
        a.to_multiset() == b.to_multiset(),
        forall|i: int, j: int|
            0 <= i < a.len() && 0 <= j < a.len() && i != j ==> newer(a[i].checkpoint_id@, a[j].checkpoint_id@)
                || newer(a[j].checkpoint_id@, a[i].checkpoint_id@),
    ensures
        a[latest_index(a)] == b[latest_index(b)],
{
    a.to_multiset_ensures();
    b.to_multiset_ensures();
    assert(b.len() == a.len());
    law_latest_is_maximal(a);
    law_latest_is_maximal(b);
    let p = latest_index(a);
    let q = latest_index(b);
    let x = a[p];
    let y = b[q];
    assert(b.contains(y));
    assert(a.to_multiset().count(y) > 0);
    assert(a.contains(y));
    assert(a.contains(x));
    assert(b.to_multiset().count(x) > 0);
    assert(b.contains(x));
    let j = choose|j: int| 0 <= j < a.len() && a[j] == y;
    let k = choose|k: int| 0 <= k < b.len() && b[k] == x;
    assert(!newer(a[j].checkpoint_id@, x.checkpoint_id@));
    assert(!newer(b[k].checkpoint_id@, y.checkpoint_id@));
    if j != p {
        assert(newer(a[j].checkpoint_id@, a[p].checkpoint_id@) || newer(a[p].checkpoint_id@, a[j].checkpoint_id@));
    }
}

/// Whether id `a` is ordered after id `b`.
fn is_newer(a: &str, b: &str) -> (r: bool)
    ensures
        r == newer(a@, b@),
{
    match (parse_checkpoint_suffix(a), parse_checkpoint_suffix(b)) {
        (Some(x), Some(y)) => x > y,
        (Some(_), None) => true,
        (None, Some(_)) => false,
        (None, None) => str_lt(b, a),
    }
}

/// The latest of `checkpoints`: the last of those that no other is ordered
/// after, as `Iterator::max_by` picks it.
pub fn select_latest_checkpoint(checkpoints: Vec<Checkpoint>) -> (r: Option<Checkpoint>)
    ensures
        r is None <==> checkpoints@.len() == 0,
        r matches Some(c) ==> c == checkpoints@[latest_index(checkpoints@)],
{
    let mut checkpoints = checkpoints;
    if checkpoints.len() == 0 {
        return None;
    }
    let ghost all = checkpoints@;
    let mut best: usize = 0;
    let mut i: usize = 1;
    while i < checkpoints.len()
        invariant
            checkpoints@ == all,
            1 <= i <= all.len(),
            best == latest_index(all.subrange(0, i as int)),
            best < i,
        decreases all.len() - i,
    {
        proof {
            let q = all.subrange(0, i + 1);
            assert(q.drop_last() =~= all.subrange(0, i as int));
            assert(q[best as int] == all[best as int]);
            assert(q.last() == all[i as int]);
        }
        if !is_newer(checkpoints[best].checkpoint_id.as_str(), checkpoints[i].checkpoint_id.as_str()) {
            best = i;
        }
        i = i + 1;
    }
    proof {
        assert(all.subrange(0, all.len() as int) =~= all);
    }
    Some(checkpoints.remove(best))
}

/// The patches of pending writes, in order.
pub open spec fn pending_patches(w: Seq<PendingWrite>) -> Seq<StatePatch> {
    w.map_values(|p: PendingWrite| p.patch)
}

fn take_patches(writes: Vec<PendingWrite>) -> (r: Vec<StatePatch>)
    ensures
        r@ == pending_patches(writes@),
{
    let ghost all = writes@;
    let mut rest = writes;
    let mut out: Vec<StatePatch> = Vec::new();
    while rest.len() > 0
        invariant
            out@.len() + rest@.len() == all.len(),
            out@ == pending_patches(all.subrange(0, out@.len() as int)),
            rest@ == all.subrange(out@.len() as int, all.len() as int),
        decreases rest@.len(),
    {
        let p = rest.remove(0);
        proof {
            assert(p == all[out@.len() as int]);
        }
        out.push(p.patch);
        proof {
            assert(pending_patches(all.subrange(0, out@.len() as int)) =~= out@);
            assert(rest@ =~= all.subrange(out@.len() as int, all.len() as int));
        }
    }
    proof {
        assert(all.subrange(0, all.len() as int) =~= all);
    }
    out
}

#[derive(Debug, PartialEq)]
pub enum CheckpointBridgeError {
    Graph(GraphError),
    Checkpoint(CheckpointError),
    CheckpointNotFound { thread_id: String, checkpoint_id: String },
    EmptyThread(String),
    Interrupted { thread_id: String, checkpoint_id: String, node: String, superstep: usize },
    CommandAuditRejected { thread_id: String, node: String, superstep: usize, reason: String },
}

/// The description of a bridge error.
pub open spec fn bridge_error_message(e: CheckpointBridgeError) -> Seq<char> {
    match e {
        CheckpointBridgeError::Graph(g) => graph_error_message(g@),
        CheckpointBridgeError::Checkpoint(c) => match c {
            CheckpointError::Conflict(m) => "checkpoint conflict: `"@ + m@ + "`"@,
            CheckpointError::Storage(m) => "storage error: "@ + m@,
        },
        CheckpointBridgeError::CheckpointNotFound { thread_id, checkpoint_id } => "checkpoint `"@ + checkpoint_id@
            + "` not found for thread `"@ + thread_id@ + "`"@,
        CheckpointBridgeError::EmptyThread(t) => "thread `"@ + t@ + "` has no checkpoints to resume from"@,
        CheckpointBridgeError::Interrupted { thread_id, checkpoint_id, node, superstep } => "thread `"@ + thread_id@
            + "` interrupted by node `"@ + node@ + "` in superstep "@ + decimal(superstep as nat)
            + "; resume from checkpoint `"@ + checkpoint_id@ + "`"@,
        CheckpointBridgeError::CommandAuditRejected { thread_id, node, superstep, reason } => "command audit rejected node `"@
            + node@ + "` in superstep "@ + decimal(superstep as nat) + " of thread `"@ + thread_id@ + "`: "@ + reason@,
    }
}

impl CheckpointBridgeError {
    /// The human-readable description of the error.
    pub fn message(&self) -> (m: String)
        ensures
            m@ == bridge_error_message(*self),
    {
        match self {
            CheckpointBridgeError::Graph(g) => g.message(),
            CheckpointBridgeError::Checkpoint(c) => c.message(),
            CheckpointBridgeError::CheckpointNotFound { thread_id, checkpoint_id } => {
                let mut m = concat3("checkpoint `", checkpoint_id.as_str(), "` not found for thread `");
                m.append(thread_id.as_str());
                m.append("`");
                m
            },
            CheckpointBridgeError::EmptyThread(t) => concat3("thread `", t.as_str(), "` has no checkpoints to resume from"),
            CheckpointBridgeError::Interrupted { thread_id, checkpoint_id, node, superstep } => {
                let step = u64_to_decimal(*superstep as u64);
                let mut m = concat3("thread `", thread_id.as_str(), "` interrupted by node `");
                m.append(node.as_str());
                m.append("` in superstep ");
                m.append(step.as_str());
                m.append("; resume from checkpoint `");
                m.append(checkpoint_id.as_str());
                m.append("`");
                m
            },
            CheckpointBridgeError::CommandAuditRejected { thread_id, node, superstep, reason } => {
                let step = u64_to_decimal(*superstep as u64);
                let mut m = concat3("command audit rejected node `", node.as_str(), "` in superstep ");
                m.append(step.as_str());
                m.append(" of thread `");
                m.append(thread_id.as_str());
                m.append("`: ");
                m.append(reason.as_str());
                m
            },
        }
    }
}

/// Rebuilds the state a checkpoint stands for: its state with its pending
/// writes applied as one superstep, and the channel versions it has seen
/// (bumped for the channels those writes touch).
pub fn materialize_checkpoint_state(graph: &CompiledGraph, checkpoint: Checkpoint) -> (r: Result<
    (State, VersionMap),
    CheckpointBridgeError,
>)
    ensures
        checkpoint.pending_writes@.len() == 0 ==> (r matches Ok(res) && res.0 == checkpoint.state
            && res.1@ == checkpoint.versions_seen@),
        checkpoint.pending_writes@.len() > 0 ==> match r {
            Ok(res) => {
                let writes = pending_patches(checkpoint.pending_writes@);
                let touched = written_channels(writes, graph.channels@);
                &&& writes_applied(checkpoint.state@, res.0@, writes, graph.reducers@, graph.channels@)
                &&& res.1@ == seen_after(
                    checkpoint.versions_seen@,
                    versions_after(checkpoint.versions_seen@, touched),
                    touched,
                )
            },
            Err(e) => e matches CheckpointBridgeError::Graph(GraphError::ChannelMergeFailed { field, reason })
                && written(pending_patches(checkpoint.pending_writes@), field@) && graph.channels@.contains_key(
                field@,
            ) && graph.channels@[field@].0.refuses(
                incoming_json(pending_patches(checkpoint.pending_writes@), field@),
                Some(reason@),
            ),
        },
        (forall|k: Seq<char>|
            written(pending_patches(checkpoint.pending_writes@), k) ==> !#[trigger] graph.channels@.contains_key(k))
            ==> r is Ok,
{
    let Checkpoint { thread_id: _, checkpoint_id: _, state, versions_seen, pending_writes } = checkpoint;
    let mut state = state;
    let mut versions_seen = versions_seen;
    if pending_writes.len() == 0 {
        return Ok((state, versions_seen));
    }
    let mut channel_versions = versions_seen.copy_counts();
    let writes = take_patches(pending_writes);
    match apply_writes_with_versions(
        &mut state,
        writes,
        &graph.reducers,
        &graph.channels,
        &mut channel_versions,
        &mut versions_seen,
    ) {
        Ok(()) => Ok((state, versions_seen)),
        Err(e) => Err(CheckpointBridgeError::Graph(e)),
    }
}

/// Whether `id` is an id this library makes for a new checkpoint.
pub open spec fn is_generated_id(id: Seq<char>) -> bool {
    exists|n: nat| 1 <= n <= u64::MAX && id == #[trigger] checkpoint_id_for(n)
}

/// Decides whether a command of a finished run may be kept; an error
/// rejects the whole run.
pub trait CommandAuditFn {
    /// Whether `r` may be the audit's answer for `event`.  An audit that
    /// does not say more promises nothing.
    open spec fn approves(&self, event: CommandTraceEvent, r: Result<(), String>) -> bool {
        true
    }

    fn check(&self, event: &CommandTraceEvent) -> (r: Result<(), String>)
        ensures
            self.approves(*event, r),
    ;
}

pub type CommandAuditHook = Box<dyn CommandAuditFn>;

/// The result of a run that completed, and the checkpoint it left.
#[derive(Debug, PartialEq)]
pub struct ThreadExecutionResult {
    pub execution: ExecutionResult,
    pub checkpoint_id: String,
}

/// The result of a run that a node interrupted, and the checkpoint it left.
#[derive(Debug, PartialEq)]
pub struct ThreadInterruptedResult {
    pub checkpoint_id: String,
    pub state: State,
    pub interrupt: InterruptSignal,
    pub command_trace: Vec<CommandTraceEvent>,
}

#[derive(Debug, PartialEq)]
pub enum ThreadInvocationOutcome {
    Completed(ThreadExecutionResult),
    Interrupted(ThreadInterruptedResult),
}

/// The checkpoint that recorded an interrupted thread.
#[derive(Debug, PartialEq)]
pub struct InterruptedCheckpoint {
    pub checkpoint_id: String,
}

/// The result and events of a streamed run, and the checkpoint it left.
#[derive(Debug, PartialEq)]
pub struct ThreadStreamResult {
    pub execution: StreamExecutionResult,
    pub checkpoint_id: String,
}

/// A sequential executor that records each run of a thread as a new
/// checkpoint of that thread.
pub struct CheckpointedSequentialExecutor<'a> {
    executor: SequentialExecutor,
    saver: Slot<&'a dyn CheckpointSaver>,
    audit_hook: Option<Slot<CommandAuditHook>>,
}

/// What an error of a run on thread `thread` says.
pub open spec fn thread_error_ok(graph: CompiledGraph, thread: Seq<char>, audited: bool, e: CheckpointBridgeError) -> bool {
    match e {
        CheckpointBridgeError::Graph(g) => run_error_ok(graph, g),
        CheckpointBridgeError::Checkpoint(_) => true,
        CheckpointBridgeError::Interrupted { thread_id, checkpoint_id, node, superstep } => thread_id@ == thread
            && graph.nodes@.contains_key(node@) && superstep >= 1 && is_generated_id(checkpoint_id@),
        CheckpointBridgeError::CommandAuditRejected { thread_id, node, .. } => audited && thread_id@ == thread
            && graph.nodes@.contains_key(node@),
        _ => false,
    }
}

/// Whether `e`, where the run itself failed, is how a run of `graph` from
/// `state` in `context` fails (as [`run_fails`] says).
pub open spec fn run_failed_as(
    graph: CompiledGraph,
    context: Map<Seq<char>, Value>,
    state: Map<Seq<char>, Value>,
    e: CheckpointBridgeError,
) -> bool {
    match e {
        CheckpointBridgeError::Graph(g) => run_fails(graph, default_policy(), context, state, g),
        _ => true,
    }
}

/// Whether `e`, where rebuilding `c` or the run from it failed, is how
/// continuing `c` fails: a pending write that a channel refuses, or a run
/// from the rebuilt state that fails as [`run_fails`] says.
pub open spec fn resume_failed_as(graph: CompiledGraph, c: Checkpoint, e: CheckpointBridgeError) -> bool {
    match e {
        CheckpointBridgeError::Graph(g) => (g matches GraphError::ChannelMergeFailed { field, reason } && written(
            pending_patches(c.pending_writes@),
            field@,
        ) && graph.channels@.contains_key(field@) && graph.channels@[field@].0.refuses(
            incoming_json(pending_patches(c.pending_writes@), field@),
            Some(reason@),
        )) || exists|s: Map<Seq<char>, Value>, v: Map<Seq<char>, u64>|
            #[trigger] materialized(graph, c, s, v) && run_fails(graph, default_policy(), Map::empty(), s, g),
        _ => true,
    }
}

/// What an error of resuming a checkpoint says: as for a run, but on the
/// thread the checkpoint names.
pub open spec fn resume_error_ok(graph: CompiledGraph, audited: bool, e: CheckpointBridgeError) -> bool {
    match e {
        CheckpointBridgeError::Interrupted { thread_id, .. } => thread_error_ok(graph, thread_id@, audited, e),
        CheckpointBridgeError::CommandAuditRejected { thread_id, .. } => thread_error_ok(graph, thread_id@, audited, e),
        _ => thread_error_ok(graph, Seq::empty(), audited, e),
    }
}

/// What a finished run on a thread gives back.
pub open spec fn outcome_ok(graph: CompiledGraph, versions: Map<Seq<char>, u64>, o: ThreadInvocationOutcome) -> bool {
    match o {
        ThreadInvocationOutcome::Completed(res) => metadata_ok(graph, versions, res.execution.metadata)
            && is_generated_id(res.checkpoint_id@),
        ThreadInvocationOutcome::Interrupted(res) => graph.nodes@.contains_key(res.interrupt.node@)
            && res.interrupt.superstep >= 1 && is_generated_id(res.checkpoint_id@),
    }
}

/// The checkpoint of thread `t` with id `id`, state `state`, versions
/// `versions` and pending writes `pending`.
pub open spec fn checkpoint_of(
    t: Seq<char>,
    id: Seq<char>,
    state: Map<Seq<char>, Json>,
    versions: Map<Seq<char>, u64>,
    pending: Seq<(Seq<char>, Map<Seq<char>, Json>)>,
) -> CheckpointView {
    CheckpointView { thread_id: t, checkpoint_id: id, state, versions_seen: versions, pending_writes: pending }
}

/// What rebuilding checkpoint `c` gives: its state and versions when it
/// has no pending writes; else its state with the pending writes applied as
/// one superstep, and its versions with the channels they touch bumped.
pub open spec fn materialized(graph: CompiledGraph, c: Checkpoint, state: Map<Seq<char>, Value>, versions: Map<Seq<char>, u64>) -> bool {
    if c.pending_writes@.len() == 0 {
        state == c.state@ && versions == c.versions_seen@
    } else {
        let writes = pending_patches(c.pending_writes@);
        let touched = written_channels(writes, graph.channels@);
        &&& writes_applied(c.state@, state, writes, graph.reducers@, graph.channels@)
        &&& versions == seen_after(c.versions_seen@, versions_after(c.versions_seen@, touched), touched)
    }
}

/// The message when a thread has used every checkpoint number.
pub open spec fn numbers_exhausted(t: Seq<char>) -> Seq<char> {
    "thread `"@ + t + "` has no checkpoint number left"@
}

impl<'a> CheckpointedSequentialExecutor<'a> {
    /// What the saver may list for thread `t`.
    pub closed spec fn saver_lists(self, t: Seq<char>, r: Result<Vec<Checkpoint>, CheckpointError>) -> bool {
        self.saver.0.lists(t, r)
    }

    /// What the saver may answer to storing `c`.
    pub closed spec fn saver_stores(self, c: CheckpointView, r: Result<(), CheckpointError>) -> bool {
        self.saver.0.stores(c, r)
    }

    /// What the saver may answer to a lookup.
    pub closed spec fn saver_finds(self, t: Seq<char>, id: Seq<char>, r: Result<Option<Checkpoint>, CheckpointError>) -> bool {
        self.saver.0.finds(t, id, r)
    }

    /// Whether `id` is the next id of thread `t`: one past the largest
    /// number among the ids the saver lists for it.
    pub open spec fn numbered(self, t: Seq<char>, id: Seq<char>) -> bool {
        exists|listed: Vec<Checkpoint>|
            #[trigger] self.saver_lists(t, Ok(listed)) && max_suffix(listed@) < u64::MAX && id == checkpoint_id_for(
                (max_suffix(listed@) + 1) as nat,
            )
    }

    /// Why no next id of thread `t` could be had: the saver failed to list
    /// it, or its largest number is the last one.
    pub open spec fn numbering_failed(self, t: Seq<char>, e: CheckpointError) -> bool {
        ||| self.saver_lists(t, Err(e))
        ||| exists|listed: Vec<Checkpoint>|
            #[trigger] self.saver_lists(t, Ok(listed)) && max_suffix(listed@) == u64::MAX && (e matches CheckpointError::Storage(
                m,
            ) && m@ == numbers_exhausted(t))
    }

    /// Whether `c` was stored as the next checkpoint of its thread.
    pub open spec fn recorded(self, c: CheckpointView) -> bool {
        self.numbered(c.thread_id, c.checkpoint_id) && exists|a: Result<(), CheckpointError>|
            a is Ok && #[trigger] self.saver_stores(c, a)
    }

    /// Why recording a checkpoint of thread `t` with contents `state`,
    /// `versions` and `pending` failed with `e`.
    pub open spec fn record_failed(
        self,
        t: Seq<char>,
        state: Map<Seq<char>, Json>,
        versions: Map<Seq<char>, u64>,
        pending: Seq<(Seq<char>, Map<Seq<char>, Json>)>,
        e: CheckpointError,
    ) -> bool {
        ||| self.numbering_failed(t, e)
        ||| exists|id: Seq<char>|
            #[trigger] self.numbered(t, id) && self.saver_stores(checkpoint_of(t, id, state, versions, pending), Err(e))
    }

    /// Whether `o` is how a run of `graph` on thread `t` from `state` in
    /// `context` ended: the run went as [`run_outcome`] says, and where it
    /// ended was recorded as the thread's next checkpoint.
    pub open spec fn thread_ran(
        self,
        graph: CompiledGraph,
        t: Seq<char>,
        context: Map<Seq<char>, Value>,
        state: Map<Seq<char>, Value>,
        o: ThreadInvocationOutcome,
    ) -> bool {
        match o {
            ThreadInvocationOutcome::Completed(res) => run_outcome(
                graph,
                default_policy(),
                context,
                state,
                res.execution.state@,
                None,
                true,
            ) && self.recorded(
                checkpoint_of(
                    t,
                    res.checkpoint_id@,
                    json_map(res.execution.state),
                    res.execution.metadata.versions_seen@,
                    Seq::empty(),
                ),
            ),
            ThreadInvocationOutcome::Interrupted(res) => run_outcome(
                graph,
                default_policy(),
                context,
                state,
                res.state@,
                Some(res.interrupt),
                true,
            ) && exists|v: Map<Seq<char>, u64>|
                #[trigger] self.recorded(checkpoint_of(t, res.checkpoint_id@, json_map(res.state), v, Seq::empty())),
        }
    }

    /// Whether `res` is what continuing `c` gives: the run from the state
    /// and versions `c` stands for, recorded as a new checkpoint of its
    /// thread.
    pub open spec fn resumed(self, graph: CompiledGraph, c: Checkpoint, res: ThreadExecutionResult) -> bool {
        exists|s: Map<Seq<char>, Value>, v: Map<Seq<char>, u64>|
            #[trigger] materialized(graph, c, s, v) && run_outcome(
                graph,
                default_policy(),
                Map::empty(),
                s,
                res.execution.state@,
                None,
                true,
            ) && metadata_ok(graph, v, res.execution.metadata) && run_metadata(
                graph,
                default_policy(),
                Map::empty(),
                s,
                res.execution.state@,
                v,
                res.execution.metadata,
            ) && self.recorded(
                checkpoint_of(
                    c.thread_id@,
                    res.checkpoint_id@,
                    json_map(res.execution.state),
                    res.execution.metadata.versions_seen@,
                    Seq::empty(),
                ),
            )
    }

    /// The checkpoint loop: continuing checkpoint `c` runs the graph from
    /// the checkpoint's state with its pending writes applied as one
    /// superstep (its state itself when it has none), the run ends where the
    /// graph finishes, its result is stored as the thread's next checkpoint
    /// with no pending writes, and no channel version the checkpoint saw is
    /// taken back.
    pub proof fn law_resume_loop(self, graph: CompiledGraph, c: Checkpoint, res: ThreadExecutionResult)
        requires
            self.resumed(graph, c, res),
        ensures
            exists|s: Map<Seq<char>, Value>|
                #[trigger] run_outcome(graph, default_policy(), Map::empty(), s, res.execution.state@, None, true)
                    && (if c.pending_writes@.len() == 0 {
                    s == c.state@
                } else {
                    writes_applied(c.state@, s, pending_patches(c.pending_writes@), graph.reducers@, graph.channels@)
                }),
            self.recorded(
                checkpoint_of(
                    c.thread_id@,
                    res.checkpoint_id@,
                    json_map(res.execution.state),
                    res.execution.metadata.versions_seen@,
                    Seq::empty(),
                ),
            ),
            forall|k: Seq<char>|
                #[trigger] c.versions_seen@.contains_key(k) ==> res.execution.metadata.versions_seen@.contains_key(k)
                    && res.execution.metadata.versions_seen@[k] >= c.versions_seen@[k],
    {
        let (s, v) = choose|s: Map<Seq<char>, Value>, v: Map<Seq<char>, u64>|
            #[trigger] materialized(graph, c, s, v) && run_outcome(
                graph,
                default_policy(),
                Map::empty(),
                s,
                res.execution.state@,
                None,
                true,
            ) && metadata_ok(graph, v, res.execution.metadata) && run_metadata(
                graph,
                default_policy(),
                Map::empty(),
                s,
                res.execution.state@,
                v,
                res.execution.metadata,
            ) && self.recorded(
                checkpoint_of(
                    c.thread_id@,
                    res.checkpoint_id@,
                    json_map(res.execution.state),
                    res.execution.metadata.versions_seen@,
                    Seq::empty(),
                ),
            );
        assert forall|k: Seq<char>| #[trigger] c.versions_seen@.contains_key(k) implies v.contains_key(k)
            && v[k] >= c.versions_seen@[k] by {
            if c.pending_writes@.len() > 0 {
                let touched = written_channels(pending_patches(c.pending_writes@), graph.channels@);
                if touched.contains(k) {
                    assert(versions_after(c.versions_seen@, touched)[k] == bumped(Some(c.versions_seen@[k])));
                }
            }
        }
    }

    /// What the audit, if any, may answer for `event`.
    pub closed spec fn audit_answers(self, event: CommandTraceEvent, r: Result<(), String>) -> bool {
        match self.audit_hook {
            Some(hook) => hook.0.approves(event, r),
            None => true,
        }
    }

    /// Whether the audit accepted `event`.
    pub open spec fn accepted(self, event: CommandTraceEvent) -> bool {
        exists|a: Result<(), String>| a is Ok && #[trigger] self.audit_answers(event, a)
    }

    /// Whether the audit accepted the commands of `trace` before the `k`-th
    /// and refused that one with `reason`.
    pub open spec fn rejected_at(self, trace: Seq<CommandTraceEvent>, k: int, reason: String) -> bool {
        &&& 0 <= k < trace.len()
        &&& forall|j: int| 0 <= j < k ==> self.accepted(#[trigger] trace[j])
        &&& self.audit_answers(trace[k], Err(reason))
    }

    /// Whether runs are audited before they are recorded.
    pub closed spec fn audited(self) -> bool {
        self.audit_hook is Some
    }

    /// An executor recording into `saver`, without an audit.
    pub fn new(saver: &'a dyn CheckpointSaver) -> (r: Self)
        ensures
            !r.audited(),
            forall|t: Seq<char>, a: Result<Vec<Checkpoint>, CheckpointError>| #[trigger] r.saver_lists(t, a)
                == saver.lists(t, a),
            forall|c: CheckpointView, a: Result<(), CheckpointError>| #[trigger] r.saver_stores(c, a) == saver.stores(
                c,
                a,
            ),
            forall|t: Seq<char>, id: Seq<char>, a: Result<Option<Checkpoint>, CheckpointError>| #[trigger] r.saver_finds(
                t,
                id,
                a,
            ) == saver.finds(t, id, a),
    {
        let ghost given = saver;
        let held = Slot(saver);
        assert(held.0 == given);
        let r = CheckpointedSequentialExecutor { executor: SequentialExecutor, saver: held, audit_hook: None };
        assert(r.saver.0 == given);
        r
    }

    /// The same executor, auditing every command of a run with `hook`
    /// before the run is recorded.
    pub fn with_command_audit_hook(self, hook: CommandAuditHook) -> (r: Self)
        ensures
            r.audited(),
            forall|e: CommandTraceEvent, a: Result<(), String>| #[trigger] r.audit_answers(e, a) == hook.approves(e, a),
            forall|t: Seq<char>, a: Result<Vec<Checkpoint>, CheckpointError>| #[trigger] r.saver_lists(t, a)
                == self.saver_lists(t, a),
            forall|c: CheckpointView, a: Result<(), CheckpointError>| #[trigger] r.saver_stores(c, a)
                == self.saver_stores(c, a),
            forall|t: Seq<char>, id: Seq<char>, a: Result<Option<Checkpoint>, CheckpointError>| #[trigger] r.saver_finds(
                t,
                id,
                a,
            ) == self.saver_finds(t, id, a),
    {
        let ghost given = hook;
        let held = Slot(hook);
        assert(held.0 == given);
        let r = CheckpointedSequentialExecutor { executor: self.executor, saver: self.saver, audit_hook: Some(held) };
        assert((r.audit_hook->0).0 == given);
        r
    }

    /// Passes each command of `trace` to the audit, in order; the first
    /// refusal rejects the run.
    fn audit(&self, thread_id: &str, trace: &Vec<CommandTraceEvent>) -> (r: Result<(), CheckpointBridgeError>)
        ensures
            !self.audited() || trace@.len() == 0 ==> r is Ok,
            self.audited() && r is Ok ==> forall|k: int| 0 <= k < trace@.len() ==> self.accepted(#[trigger] trace@[k]),
            self.audited() ==> (r matches Err(CheckpointBridgeError::CommandAuditRejected { reason, .. }) ==> exists|k: int|
                #[trigger] self.rejected_at(trace@, k, reason)),
            r matches Err(e) ==> (e matches CheckpointBridgeError::CommandAuditRejected { thread_id: t, node, superstep, .. }
                && t@ == thread_id@ && self.audited() && exists|k: int| 0 <= k < trace@.len()
                && (#[trigger] trace@[k]).node@ == node@ && trace@[k].superstep == superstep),
    {
        match &self.audit_hook {
            None => Ok(()),
            Some(hook) => {
                let mut i: usize = 0;
                while i < trace.len()
                    invariant
                        i <= trace.len(),
                        self.audited(),
                        self.audit_hook == Some(*hook),
                        forall|j: int| 0 <= j < i ==> self.accepted(#[trigger] trace@[j]),
                    decreases trace.len() - i,
                {
                    let event = &trace[i];
                    let answer = hook.0.check(event);
                    proof {
                        assert(self.audit_answers(trace@[i as int], answer));
                    }
                    match answer {
                        Ok(()) => {},
                        Err(reason) => {
                            proof {
                                assert(self.audit_answers(trace@[i as int], Err(reason)));
                                assert(self.rejected_at(trace@, i as int, reason));
                            }
                            let e = CheckpointBridgeError::CommandAuditRejected {
                                thread_id: thread_id.to_string(),
                                node: event.node.clone(),
                                superstep: event.superstep,
                                reason,
                            };
                            proof {
                                assert(e->CommandAuditRejected_reason == reason);
                                assert(self.rejected_at(trace@, i as int, e->CommandAuditRejected_reason));
                            }
                            return Err(e);
                        },
                    }
                    i = i + 1;
                }
                Ok(())
            },
        }
    }

    /// The id of the next checkpoint of `thread_id`.
    fn next_id(&self, thread_id: &str) -> (r: Result<String, CheckpointBridgeError>)
        ensures
            r matches Ok(id) ==> is_generated_id(id@) && self.numbered(thread_id@, id@),
            r matches Err(e) ==> e matches CheckpointBridgeError::Checkpoint(ce) && self.numbering_failed(thread_id@, ce),
    {
        let answer = self.saver.0.list(thread_id);
        let listed = match answer {
            Ok(v) => v,
            Err(e) => {
                proof {
                    assert(self.saver_lists(thread_id@, Err(e)));
                }
                return Err(CheckpointBridgeError::Checkpoint(e));
            },
        };
        proof {
            assert(self.saver_lists(thread_id@, Ok(listed)));
        }
        match next_checkpoint_id(&listed) {
            Some(id) => {
                proof {
                    lemma_max_suffix_bounds(listed@);
                    let n = max_suffix(listed@) + 1;
                    assert(id@ == checkpoint_id_for(n));
                }
                Ok(id)
            },
            None => {
                proof {
                    reveal_strlit("thread `");
                    reveal_strlit("` has no checkpoint number left");
                }
                Err(CheckpointBridgeError::Checkpoint(
                    CheckpointError::Storage(concat3("thread `", thread_id, "` has no checkpoint number left")),
                ))
            },
        }
    }

    /// Records `state` and `versions_seen` as a new checkpoint of `thread_id`.
    fn persist(&self, thread_id: &str, state: &State, versions_seen: &VersionMap) -> (r: Result<
        String,
        CheckpointBridgeError,
    >)
        ensures
            r matches Ok(id) ==> is_generated_id(id@) && self.recorded(
                checkpoint_of(thread_id@, id@, json_map(*state), versions_seen@, Seq::empty()),
            ),
            r matches Err(e) ==> e matches CheckpointBridgeError::Checkpoint(ce) && self.record_failed(
                thread_id@,
                json_map(*state),
                versions_seen@,
                Seq::empty(),
                ce,
            ),
    {
        let checkpoint_id = self.next_id(thread_id)?;
        let checkpoint = Checkpoint {
            thread_id: thread_id.to_string(),
            checkpoint_id: checkpoint_id.clone(),
            state: state.copy_values_map(),
            versions_seen: versions_seen.copy_counts(),
            pending_writes: Vec::new(),
        };
        let ghost cv = checkpoint@;
        proof {
            assert(json_map(checkpoint.state) =~= json_map(*state));
            assert(writes_view(checkpoint.pending_writes@) =~= Seq::empty());
            assert(cv == checkpoint_of(thread_id@, checkpoint_id@, json_map(*state), versions_seen@, Seq::empty()));
        }
        let answer = self.saver.0.put(checkpoint);
        proof {
            assert(self.saver_stores(cv, answer));
        }
        match answer {
            Ok(()) => {
                proof {
                    assert(answer is Ok && self.saver_stores(cv, answer));
                }
                Ok(checkpoint_id)
            },
            Err(e) => {
                proof {
                    assert(self.saver_stores(cv, Err(e)));
                }
                Err(CheckpointBridgeError::Checkpoint(e))
            },
        }
    }

    /// Runs `graph` on a thread from the given versions, audits the run and
    /// records where it ended.
    fn run_thread(
        &self,
        graph: &CompiledGraph,
        thread_id: &str,
        state: State,
        runtime_context: RuntimeContext,
        versions: VersionMap,
    ) -> (r: Result<ThreadInvocationOutcome, CheckpointBridgeError>)
        ensures
            r matches Ok(o) ==> outcome_ok(*graph, versions@, o),
            r matches Ok(o) ==> self.thread_ran(*graph, thread_id@, runtime_context@, state@, o),
            r matches Ok(ThreadInvocationOutcome::Completed(res)) ==> run_metadata(
                *graph,
                default_policy(),
                runtime_context@,
                state@,
                res.execution.state@,
                versions@,
                res.execution.metadata,
            ),
            r matches Err(e) ==> thread_error_ok(*graph, thread_id@, self.audited(), e),
            r matches Err(e) ==> run_failed_as(*graph, runtime_context@, state@, e),
    {
        let ghost ctx0 = runtime_context@;
        let ghost s0 = state@;
        let result = match self.executor.invoke_with_runtime_context_from_versions(
            graph,
            state,
            runtime_context,
            versions,
        ) {
            Ok(res) => res,
            Err(e) => return Err(CheckpointBridgeError::Graph(e)),
        };
        proof {
            assert(run_outcome(*graph, default_policy(), ctx0, s0, result.state@, result.interrupt, true));
        }
        match self.audit(thread_id, &result.metadata.command_trace) {
            Ok(()) => {},
            Err(e) => {
                proof {
                    let k = choose|k: int| 0 <= k < result.metadata.command_trace@.len()
                        && (#[trigger] result.metadata.command_trace@[k]).node@ == (e->CommandAuditRejected_node)@;
                    assert(graph.nodes@.contains_key(result.metadata.command_trace@[k].node@));
                }
                return Err(e);
            },
        }
        let checkpoint_id = self.persist(thread_id, &result.state, &result.metadata.versions_seen)?;
        let ghost v = result.metadata.versions_seen@;
        proof {
            assert(self.recorded(checkpoint_of(thread_id@, checkpoint_id@, json_map(result.state), v, Seq::empty())));
        }
        match result.interrupt {
            Some(signal) => {
                let o = ThreadInvocationOutcome::Interrupted(ThreadInterruptedResult {
                    checkpoint_id,
                    state: result.state,
                    interrupt: signal,
                    command_trace: result.metadata.command_trace,
                });
                proof {
                    let res = o->Interrupted_0;
                    assert(self.recorded(checkpoint_of(thread_id@, res.checkpoint_id@, json_map(res.state), v, Seq::empty())));
                    assert(self.thread_ran(*graph, thread_id@, ctx0, s0, o));
                }
                Ok(o)
            },
            None => {
                let o = ThreadInvocationOutcome::Completed(ThreadExecutionResult {
                    execution: ExecutionResult { state: result.state, metadata: result.metadata },
                    checkpoint_id,
                });
                proof {
                    assert(self.thread_ran(*graph, thread_id@, ctx0, s0, o));
                }
                Ok(o)
            },
        }
    }

    /// Runs `graph` on `thread_id` with a runtime context and records where
    /// the run ended, completed or interrupted.
    pub fn invoke_thread_with_runtime_context(
        &self,
        graph: &CompiledGraph,
        thread_id: &str,
        state: State,
        runtime_context: RuntimeContext,
    ) -> (r: Result<ThreadInvocationOutcome, CheckpointBridgeError>)
        ensures
            r matches Ok(o) ==> outcome_ok(*graph, Map::empty(), o),
            r matches Ok(o) ==> self.thread_ran(*graph, thread_id@, runtime_context@, state@, o),
            r matches Ok(ThreadInvocationOutcome::Completed(res)) ==> run_metadata(
                *graph,
                default_policy(),
                runtime_context@,
                state@,
                res.execution.state@,
                Map::empty(),
                res.execution.metadata,
            ),
            r matches Err(e) ==> thread_error_ok(*graph, thread_id@, self.audited(), e),
            r matches Err(e) ==> run_failed_as(*graph, runtime_context@, state@, e),
    {
        self.run_thread(graph, thread_id, state, runtime_context, StrMap::new())
    }

    /// Runs `graph` on `thread_id` and records the result; an interrupted
    /// run is recorded too, and reported as `Interrupted`.
    pub fn invoke_thread(&self, graph: &CompiledGraph, thread_id: &str, state: State) -> (r: Result<
        ThreadExecutionResult,
        CheckpointBridgeError,
    >)
        ensures
            r matches Ok(res) ==> metadata_ok(*graph, Map::empty(), res.execution.metadata) && is_generated_id(
                res.checkpoint_id@,
            ),
            r matches Ok(res) ==> self.thread_ran(
                *graph,
                thread_id@,
                Map::empty(),
                state@,
                ThreadInvocationOutcome::Completed(res),
            ),
            r matches Ok(res) ==> run_metadata(
                *graph,
                default_policy(),
                Map::empty(),
                state@,
                res.execution.state@,
                Map::empty(),
                res.execution.metadata,
            ),
            r matches Err(e) ==> thread_error_ok(*graph, thread_id@, self.audited(), e),
            r matches Err(e) ==> run_failed_as(*graph, Map::empty(), state@, e),
    {
        match self.run_thread(graph, thread_id, state, StrMap::new(), StrMap::new())? {
            ThreadInvocationOutcome::Completed(res) => Ok(res),
            ThreadInvocationOutcome::Interrupted(res) => Err(CheckpointBridgeError::Interrupted {
                thread_id: thread_id.to_string(),
                checkpoint_id: res.checkpoint_id,
                node: res.interrupt.node,
                superstep: res.interrupt.superstep,
            }),
        }
    }

    /// Runs `graph` on `thread_id`, collecting the events of the run, and
    /// records where the run ended.
    pub fn stream_thread_with_runtime_context(
        &self,
        graph: &CompiledGraph,
        thread_id: &str,
        state: State,
        runtime_context: RuntimeContext,
    ) -> (r: Result<ThreadStreamResult, CheckpointBridgeError>)
        ensures
            r matches Ok(res) ==> metadata_ok(*graph, Map::empty(), res.execution.metadata) && interrupt_ok(
                *graph,
                res.execution.metadata,
                res.execution.interrupt,
            ) && is_generated_id(res.checkpoint_id@),
            r matches Ok(res) ==> run_events(
                *graph,
                default_policy(),
                runtime_context@,
                state@,
                Seq::empty(),
                res.execution.events@.map_values(|e: StreamEvent| event_view(e)),
                res.execution.state@,
                metadata_view(res.execution.metadata),
            ),
            r matches Ok(res) ==> run_outcome(
                *graph,
                default_policy(),
                runtime_context@,
                state@,
                res.execution.state@,
                res.execution.interrupt,
                true,
            ) && self.recorded(
                checkpoint_of(
                    thread_id@,
                    res.checkpoint_id@,
                    json_map(res.execution.state),
                    res.execution.metadata.versions_seen@,
                    Seq::empty(),
                ),
            ),
            r matches Err(e) ==> thread_error_ok(*graph, thread_id@, self.audited(), e),
            r matches Err(e) ==> run_failed_as(*graph, runtime_context@, state@, e),
    {
        let execution = match self.executor.stream_with_runtime_context(graph, state, runtime_context) {
            Ok(res) => res,
            Err(e) => return Err(CheckpointBridgeError::Graph(e)),
        };
        match self.audit(thread_id, &execution.metadata.command_trace) {
            Ok(()) => {},
            Err(e) => {
                proof {
                    let k = choose|k: int| 0 <= k < execution.metadata.command_trace@.len()
                        && (#[trigger] execution.metadata.command_trace@[k]).node@ == (e->CommandAuditRejected_node)@;
                    assert(graph.nodes@.contains_key(execution.metadata.command_trace@[k].node@));
                }
                return Err(e);
            },
        }
        let checkpoint_id = self.persist(thread_id, &execution.state, &execution.metadata.versions_seen)?;
        Ok(ThreadStreamResult { execution, checkpoint_id })
    }

    /// Runs `graph` on `thread_id` without a runtime context, collecting the
    /// events of the run, and records where the run ended.
    pub fn stream_thread(&self, graph: &CompiledGraph, thread_id: &str, state: State) -> (r: Result<
        ThreadStreamResult,
        CheckpointBridgeError,
    >)
        ensures
            r matches Ok(res) ==> metadata_ok(*graph, Map::empty(), res.execution.metadata) && interrupt_ok(
                *graph,
                res.execution.metadata,
                res.execution.interrupt,
            ) && is_generated_id(res.checkpoint_id@),
            r matches Ok(res) ==> run_events(
                *graph,
                default_policy(),
                Map::empty(),
                state@,
                Seq::empty(),
                res.execution.events@.map_values(|e: StreamEvent| event_view(e)),
                res.execution.state@,
                metadata_view(res.execution.metadata),
            ),
            r matches Ok(res) ==> run_outcome(
                *graph,
                default_policy(),
                Map::empty(),
                state@,
                res.execution.state@,
                res.execution.interrupt,
                true,
            ) && self.recorded(
                checkpoint_of(
                    thread_id@,
                    res.checkpoint_id@,
                    json_map(res.execution.state),
                    res.execution.metadata.versions_seen@,
                    Seq::empty(),
                ),
            ),
            r matches Err(e) ==> thread_error_ok(*graph, thread_id@, self.audited(), e),
            r matches Err(e) ==> run_failed_as(*graph, Map::empty(), state@, e),
    {
        self.stream_thread_with_runtime_context(graph, thread_id, state, StrMap::new())
    }

    /// Records an interrupted thread: its state, the versions it has seen and
    /// the writes not yet applied, as a new checkpoint.
    pub fn interrupt_thread(
        &self,
        thread_id: &str,
        state: State,
        versions_seen: VersionMap,
        pending_writes: Vec<PendingWrite>,
    ) -> (r: Result<InterruptedCheckpoint, CheckpointBridgeError>)
        ensures
            r matches Ok(res) ==> is_generated_id(res.checkpoint_id@) && self.recorded(
                checkpoint_of(
                    thread_id@,
                    res.checkpoint_id@,
                    json_map(state),
                    versions_seen@,
                    writes_view(pending_writes@),
                ),
            ),
            r matches Err(e) ==> e matches CheckpointBridgeError::Checkpoint(ce) && self.record_failed(
                thread_id@,
                json_map(state),
                versions_seen@,
                writes_view(pending_writes@),
                ce,
            ),
    {
        let checkpoint_id = self.next_id(thread_id)?;
        let checkpoint = Checkpoint {
            thread_id: thread_id.to_string(),
            checkpoint_id: checkpoint_id.clone(),
            state,
            versions_seen,
            pending_writes,
        };
        let ghost cv = checkpoint@;
        let answer = self.saver.0.put(checkpoint);
        proof {
            assert(self.saver_stores(cv, answer));
        }
        match answer {
            Ok(()) => {
                proof {
                    assert(answer is Ok && self.saver_stores(cv, answer));
                }
                Ok(InterruptedCheckpoint { checkpoint_id })
            },
            Err(e) => {
                proof {
                    assert(self.saver_stores(cv, Err(e)));
                }
                Err(CheckpointBridgeError::Checkpoint(e))
            },
        }
    }

    /// Continues the thread of `checkpoint` from it.
    fn resume_from_checkpoint(&self, graph: &CompiledGraph, checkpoint: Checkpoint) -> (r: Result<
        ThreadExecutionResult,
        CheckpointBridgeError,
    >)
        ensures
            r matches Ok(res) ==> is_generated_id(res.checkpoint_id@),
            r matches Ok(res) ==> self.resumed(*graph, checkpoint, res),
            r matches Err(e) ==> resume_error_ok(*graph, self.audited(), e),
            r matches Err(e) ==> resume_failed_as(*graph, checkpoint, e),
    {
        let thread_id = checkpoint.thread_id.clone();
        let ghost c = checkpoint;
        let (state, versions_seen) = materialize_checkpoint_state(graph, checkpoint)?;
        let ghost s = state@;
        let ghost v = versions_seen@;
        proof {
            assert(materialized(*graph, c, s, v));
        }
        let context: RuntimeContext = StrMap::new();
        proof {
            assert(context@ =~= Map::<Seq<char>, Value>::empty());
        }
        match self.run_thread(graph, thread_id.as_str(), state, context, versions_seen)? {
            ThreadInvocationOutcome::Completed(res) => Ok(res),
            ThreadInvocationOutcome::Interrupted(res) => Err(CheckpointBridgeError::Interrupted {
                thread_id,
                checkpoint_id: res.checkpoint_id,
                node: res.interrupt.node,
                superstep: res.interrupt.superstep,
            }),
        }
    }

    /// Continues thread `thread_id` from its checkpoint `checkpoint_id`.
    pub fn resume(&self, graph: &CompiledGraph, thread_id: &str, checkpoint_id: &str) -> (r: Result<
        ThreadExecutionResult,
        CheckpointBridgeError,
    >)
        ensures
            r matches Ok(res) ==> is_generated_id(res.checkpoint_id@),
            r matches Ok(res) ==> exists|c: Checkpoint|
                #[trigger] self.saver_finds(thread_id@, checkpoint_id@, Ok(Some(c))) && self.resumed(*graph, c, res),
            r matches Err(e) ==> resume_error_ok(*graph, self.audited(), e) || (e matches CheckpointBridgeError::CheckpointNotFound {
                thread_id: t,
                checkpoint_id: c,
            } && t@ == thread_id@ && c@ == checkpoint_id@),
            r matches Err(e) ==> (e is CheckpointNotFound ==> self.saver_finds(thread_id@, checkpoint_id@, Ok(None))),
            r matches Err(e) ==> (e is Graph ==> exists|c: Checkpoint|
                #[trigger] self.saver_finds(thread_id@, checkpoint_id@, Ok(Some(c))) && resume_failed_as(*graph, c, e)),
    {
        let answer = self.saver.0.get(thread_id, checkpoint_id);
        proof {
            assert(self.saver_finds(thread_id@, checkpoint_id@, answer));
        }
        let found = match answer {
            Ok(found) => found,
            Err(e) => return Err(CheckpointBridgeError::Checkpoint(e)),
        };
        match found {
            None => Err(CheckpointBridgeError::CheckpointNotFound {
                thread_id: thread_id.to_string(),
                checkpoint_id: checkpoint_id.to_string(),
            }),
            Some(checkpoint) => self.resume_from_checkpoint(graph, checkpoint),
        }
    }

    /// Continues thread `thread_id` from its latest checkpoint.
    pub fn resume_latest(&self, graph: &CompiledGraph, thread_id: &str) -> (r: Result<
        ThreadExecutionResult,
        CheckpointBridgeError,
    >)
        ensures
            r matches Ok(res) ==> is_generated_id(res.checkpoint_id@),
            r matches Ok(res) ==> exists|listed: Vec<Checkpoint>|
                #[trigger] self.saver_lists(thread_id@, Ok(listed)) && listed@.len() > 0 && self.resumed(
                    *graph,
                    listed@[latest_index(listed@)],
                    res,
                ),
            r matches Err(e) ==> resume_error_ok(*graph, self.audited(), e) || (e matches CheckpointBridgeError::EmptyThread(
                t,
            ) && t@ == thread_id@),
            r matches Err(e) ==> (e is EmptyThread ==> exists|listed: Vec<Checkpoint>|
                #[trigger] self.saver_lists(thread_id@, Ok(listed)) && listed@.len() == 0),
            r matches Err(e) ==> (e is Graph ==> exists|listed: Vec<Checkpoint>|
                #[trigger] self.saver_lists(thread_id@, Ok(listed)) && listed@.len() > 0 && resume_failed_as(
                    *graph,
                    listed@[latest_index(listed@)],
                    e,
                )),
    {
        let answer = self.saver.0.list(thread_id);
        proof {
            assert(self.saver_lists(thread_id@, answer));
        }
        let listed = match answer {
            Ok(v) => v,
            Err(e) => return Err(CheckpointBridgeError::Checkpoint(e)),
        };
        let ghost all = listed;
        match select_latest_checkpoint(listed) {
            None => Err(CheckpointBridgeError::EmptyThread(thread_id.to_string())),
            Some(checkpoint) => self.resume_from_checkpoint(graph, checkpoint),
        }
    }
}

} // verus!
