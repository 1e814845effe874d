//! Superstep execution of a compiled graph.
//!
//! Each superstep runs the active nodes in ascending name order against the
//! state as it was at the start of the step, resolves their commands,
//! chooses the next active nodes (goto targets, else the conditional
//! router's choice, else the plain edges), and then applies all the
//! patches.  A run ends when a node interrupts, or when the finish node was
//! active and nothing follows it.
use vstd::prelude::*;
use crate::channel::{ChannelEntry, Slot};
use crate::command_policy::{default_policy, policy_refusal, resolve_commands, resolve_ok, CommandPolicy};
use crate::error::GraphError;
use crate::graph::{CompiledGraph, GraphNode};
use crate::json::{Json, StrMap, StrSet, Value};
use crate::runtime::{commands_view, names_view, Command, CommandView, NodeOutput, RuntimeContext};
use crate::state::{apply_writes_with_versions, incoming_json, json_map, seen_after, versions_after, written, written_channels, writes_applied, State, StatePatch, VersionMap};
use crate::text::{seq_lt, str_eq};

verus! {

/// The largest number of supersteps a run may take.
pub const MAX_STEPS: usize = 10000;

#[derive(Debug, PartialEq)]
pub struct CommandTraceEvent {
    pub node: String,
    pub superstep: usize,
    pub command: Command,
}

#[derive(Debug, PartialEq)]
pub struct ExecutionMetadata {
    pub supersteps: usize,
    pub channel_versions: VersionMap,
    pub versions_seen: VersionMap,
    pub command_trace: Vec<CommandTraceEvent>,
}

#[derive(Debug, PartialEq)]
pub struct ExecutionResult {
    pub state: State,
    pub metadata: ExecutionMetadata,
}

#[derive(Debug, PartialEq)]
pub struct InterruptSignal {
    pub node: String,
    pub superstep: usize,
}

#[derive(Debug, PartialEq)]
pub struct CommandExecutionResult {
    pub state: State,
    pub metadata: ExecutionMetadata,
    pub interrupt: Option<InterruptSignal>,
}

#[derive(Debug, PartialEq)]
pub enum StreamEvent {
    NodeStarted { node: String, superstep: usize },
    NodeFinished { node: String, superstep: usize, patch: StatePatch },
    StateChunk { superstep: usize, chunk: StatePatch },
    CommandEmitted { node: String, superstep: usize, command: Command },
    Interrupted { node: String, superstep: usize },
    Completed { state: State, metadata: ExecutionMetadata, interrupt: Option<InterruptSignal> },
}

#[derive(Debug, PartialEq)]
pub struct StreamExecutionResult {
    pub state: State,
    pub metadata: ExecutionMetadata,
    pub interrupt: Option<InterruptSignal>,
    pub events: Vec<StreamEvent>,
}

/// Receives the events of a run; returning `false` stops the run.
pub trait EventSink {
    /// Whether this sink accepts every event.  A sink that does not say so
    /// may stop the run at any event.
    open spec fn accepts_all(&self) -> bool {
        false
    }

    /// Whether this sink keeps what it receives, as [`EventSink::received`].
    open spec fn records(&self) -> bool {
        false
    }

    /// What a recording sink has received, in order.
    open spec fn received(&self) -> Seq<EventView> {
        Seq::empty()
    }

    fn emit(&mut self, event: StreamEvent) -> (r: bool)
        ensures
            old(self).accepts_all() ==> r && final(self).accepts_all(),
            old(self).records() ==> final(self).records() && final(self).received() == old(self).received().push(
                event_view(event),
            ),
    ;
}

/// The content of a stream event.
pub enum EventView {
    NodeStarted(Seq<char>, usize),
    NodeFinished(Seq<char>, usize, Map<Seq<char>, Json>),
    StateChunk(usize, Map<Seq<char>, Json>),
    CommandEmitted(Seq<char>, usize, CommandView),
    Interrupted(Seq<char>, usize),
    Completed(Map<Seq<char>, Json>, MetadataView, Option<(Seq<char>, usize)>),
}

/// The content of run metadata.
pub struct MetadataView {
    pub supersteps: usize,
    pub channel_versions: Map<Seq<char>, u64>,
    pub versions_seen: Map<Seq<char>, u64>,
    pub command_trace: Seq<(Seq<char>, usize, CommandView)>,
}

/// The content of `m`.
pub open spec fn metadata_view(m: ExecutionMetadata) -> MetadataView {
    MetadataView {
        supersteps: m.supersteps,
        channel_versions: m.channel_versions@,
        versions_seen: m.versions_seen@,
        command_trace: trace_views(m.command_trace@),
    }
}

/// The content of `e`.
pub open spec fn event_view(e: StreamEvent) -> EventView {
    match e {
        StreamEvent::NodeStarted { node, superstep } => EventView::NodeStarted(node@, superstep),
        StreamEvent::NodeFinished { node, superstep, patch } => EventView::NodeFinished(node@, superstep, json_map(patch)),
        StreamEvent::StateChunk { superstep, chunk } => EventView::StateChunk(superstep, json_map(chunk)),
        StreamEvent::CommandEmitted { node, superstep, command } => EventView::CommandEmitted(node@, superstep, command@),
        StreamEvent::Interrupted { node, superstep } => EventView::Interrupted(node@, superstep),
        StreamEvent::Completed { state, metadata, interrupt } => EventView::Completed(
            json_map(state),
            metadata_view(metadata),
            match interrupt {
                Some(sig) => Some((sig.node@, sig.superstep)),
                None => None,
            },
        ),
    }
}

/// A sink that keeps every event.
pub struct CollectSink {
    pub events: Vec<StreamEvent>,
}

impl EventSink for CollectSink {
    open spec fn accepts_all(&self) -> bool {
        true
    }

    open spec fn records(&self) -> bool {
        true
    }

    open spec fn received(&self) -> Seq<EventView> {
        self.events@.map_values(|e: StreamEvent| event_view(e))
    }

    fn emit(&mut self, event: StreamEvent) -> (r: bool)
        ensures
            r,
            final(self).events@ == old(self).events@.push(event),
    {
        let ghost ev = event;
        self.events.push(event);
        proof {
            assert(self.events@.map_values(|e: StreamEvent| event_view(e)) =~= old(self).events@.map_values(
                |e: StreamEvent| event_view(e),
            ).push(event_view(ev)));
        }
        true
    }
}

/// A sink that drops every event.
pub struct DiscardSink;

impl EventSink for DiscardSink {
    open spec fn accepts_all(&self) -> bool {
        true
    }

    fn emit(&mut self, event: StreamEvent) -> (r: bool)
        ensures
            r,
    {
        true
    }
}

#[derive(Debug, Default, Clone, Copy)]
pub struct SequentialExecutor;

/// What holds of the metadata of every run that ends normally.
pub open spec fn metadata_ok(
    graph: CompiledGraph,
    initial_versions: Map<Seq<char>, u64>,
    m: ExecutionMetadata,
) -> bool {
    &&& m.supersteps <= MAX_STEPS
    &&& m.versions_seen@ == m.channel_versions@
    &&& forall|k: Seq<char>| #[trigger] initial_versions.contains_key(k) ==> m.channel_versions@.contains_key(k)
        && m.channel_versions@[k] >= initial_versions[k]
    &&& forall|k: Seq<char>| #[trigger] m.channel_versions@.contains_key(k) ==> initial_versions.contains_key(k)
        || graph.channels@.contains_key(k)
    &&& forall|i: int| 0 <= i < m.command_trace@.len() ==> graph.nodes@.contains_key(
        (#[trigger] m.command_trace@[i]).node@,
    ) && 1 <= m.command_trace@[i].superstep <= m.supersteps + 1
}

/// The errors a run can end with, and what each says of the graph.
pub open spec fn run_error_ok(graph: CompiledGraph, e: GraphError) -> bool {
    match e {
        GraphError::NodeNotFound(n) => !graph.nodes@.contains_key(n@),
        GraphError::NodeExecutionFailed { node, .. } => graph.nodes@.contains_key(node@),
        GraphError::CommandRejected { node, .. } => graph.nodes@.contains_key(node@),
        GraphError::InvalidGotoTarget { node, target } => graph.nodes@.contains_key(node@)
            && !graph.nodes@.contains_key(target@),
        GraphError::InvalidConditionalTarget { from, to } => graph.conditional_edges@.contains_key(from@)
            && !(crate::runtime::names_view(graph.conditional_edges@[from@].targets@).contains(to@)
            && graph.nodes@.contains_key(to@)),
        GraphError::ChannelMergeFailed { field, .. } => graph.channels@.contains_key(field@),
        GraphError::DidNotReachFinish(f) => f@ == graph.finish_point@,
        _ => false,
    }
}

/// The interrupt of a run, if any, names a node and the last superstep.
pub open spec fn interrupt_ok(graph: CompiledGraph, m: ExecutionMetadata, i: Option<InterruptSignal>) -> bool {
    match i {
        Some(sig) => graph.nodes@.contains_key(sig.node@) && sig.superstep == m.supersteps && sig.superstep >= 1,
        None => true,
    }
}


/// One node's turn in a superstep: the node, what it gave, its resolved
/// commands, and the nodes it sends the run to next.
pub struct NodeStep {
    pub name: Seq<char>,
    pub output: NodeOutput,
    pub interrupted: bool,
    pub targets: Seq<Seq<char>>,
    pub next: Set<Seq<char>>,
}

/// Whether node `name` of `graph` may give `out` on `state` in `context`.
pub open spec fn node_gives(
    graph: CompiledGraph,
    name: Seq<char>,
    state: Map<Seq<char>, Value>,
    context: Map<Seq<char>, Value>,
    out: NodeOutput,
) -> bool {
    match graph.nodes@[name] {
        GraphNode::Plain(Slot(a)) => out.commands@.len() == 0 && a.yields(state, Ok(out.patch)),
        GraphNode::Runtime(Slot(a)) => a.outputs(state, context, Ok(out)),
    }
}

/// Where node `name` sends the run when it does not interrupt: to its goto
/// `targets` if it has any (each must be a node); else, with conditional
/// edges, to what its router chooses on `state` (each among the edges'
/// targets and a node); else along its plain edges; else nowhere.
pub open spec fn route_ok(
    graph: CompiledGraph,
    state: Map<Seq<char>, Value>,
    context: Map<Seq<char>, Value>,
    name: Seq<char>,
    targets: Seq<Seq<char>>,
    next: Set<Seq<char>>,
) -> bool {
    if targets.len() > 0 {
        next == targets.to_set() && forall|k: int| 0 <= k < targets.len() ==> graph.nodes@.contains_key(#[trigger] targets[k])
    } else if graph.conditional_edges@.contains_key(name) {
        exists|chosen: Vec<String>|
            #[trigger] graph.conditional_edges@[name].router.routes(state, context, Ok(chosen)) && next == names_view(
                chosen@,
            ).to_set() && forall|k: int|
                0 <= k < chosen@.len() ==> names_view(graph.conditional_edges@[name].targets@).contains(
                    #[trigger] chosen@[k]@,
                ) && graph.nodes@.contains_key(chosen@[k]@)
    } else if graph.adjacency@.contains_key(name) {
        next == names_view(graph.adjacency@[name]@).to_set()
    } else {
        next == Set::<Seq<char>>::empty()
    }
}

/// Whether none of the first `k` turns interrupted.
pub open spec fn quiet_upto(steps: Seq<NodeStep>, k: int) -> bool {
    forall|i: int| 0 <= i < k ==> !(#[trigger] steps[i]).interrupted
}

/// Whether turn `j` is a node run on `state`: the node exists, gave its
/// output on `state`, its commands resolve as recorded, and it routes as
/// [`route_ok`] says unless it or an earlier turn interrupted.
pub open spec fn step_ok(
    graph: CompiledGraph,
    policy: CommandPolicy,
    state: Map<Seq<char>, Value>,
    context: Map<Seq<char>, Value>,
    steps: Seq<NodeStep>,
    j: int,
) -> bool {
    let s = steps[j];
    &&& graph.nodes@.contains_key(s.name)
    &&& node_gives(graph, s.name, state, context, s.output)
    &&& policy_refusal(commands_view(s.output.commands@), policy, s.name) is None
    &&& resolve_ok(commands_view(s.output.commands@), policy, s.targets, s.interrupted)
    &&& if quiet_upto(steps, j + 1) {
        route_ok(graph, state, context, s.name, s.targets, s.next)
    } else {
        s.next == Set::<Seq<char>>::empty()
    }
}

/// The first node that interrupted, if any.
pub open spec fn first_interrupt(steps: Seq<NodeStep>) -> Option<Seq<char>>
    decreases steps.len(),
{
    if steps.len() == 0 {
        None
    } else {
        match first_interrupt(steps.drop_last()) {
            Some(n) => Some(n),
            None => if steps.last().interrupted {
                Some(steps.last().name)
            } else {
                None
            },
        }
    }
}

/// The nodes the turns send the run to.
pub open spec fn union_next(steps: Seq<NodeStep>) -> Set<Seq<char>>
    decreases steps.len(),
{
    if steps.len() == 0 {
        Set::empty()
    } else {
        union_next(steps.drop_last()) + steps.last().next
    }
}

/// The patches of the turns, in order.
pub open spec fn step_patches(steps: Seq<NodeStep>) -> Seq<StrMap<Value>> {
    steps.map_values(|s: NodeStep| s.output.patch)
}

/// Whether `steps` make a superstep from `state` over `active` (in order)
/// that leads to `after`, with `next` active and `interrupt` as the first
/// interrupting node: every node runs on the state at the start of the
/// step, and all the patches are then applied together.
pub open spec fn superstep_by(
    graph: CompiledGraph,
    policy: CommandPolicy,
    context: Map<Seq<char>, Value>,
    state: Map<Seq<char>, Value>,
    active: Seq<Seq<char>>,
    steps: Seq<NodeStep>,
    after: Map<Seq<char>, Value>,
    next: Set<Seq<char>>,
    interrupt: Option<Seq<char>>,
) -> bool {
    &&& steps.len() == active.len()
    &&& forall|j: int| 0 <= j < steps.len() ==> (#[trigger] steps[j]).name == active[j] && step_ok(
        graph,
        policy,
        state,
        context,
        steps,
        j,
    )
    &&& interrupt == first_interrupt(steps)
    &&& next == union_next(steps)
    &&& writes_applied(state, after, step_patches(steps), graph.reducers@, graph.channels@)
}

/// Names in strictly ascending order.
pub open spec fn ascending(names: Seq<Seq<char>>) -> bool {
    forall|i: int, j: int| 0 <= i < j < names.len() ==> seq_lt(#[trigger] names[i], #[trigger] names[j])
}

/// Whether one superstep over the nodes of `active` (in ascending order)
/// leads from `state` to `after`, with `next` active and `interrupt`.
pub open spec fn superstep(
    graph: CompiledGraph,
    policy: CommandPolicy,
    context: Map<Seq<char>, Value>,
    state: Map<Seq<char>, Value>,
    active: Set<Seq<char>>,
    after: Map<Seq<char>, Value>,
    next: Set<Seq<char>>,
    interrupt: Option<Seq<char>>,
) -> bool {
    exists|order: Seq<Seq<char>>, steps: Seq<NodeStep>|
        ascending(order) && order.to_set() == active && #[trigger] superstep_by(
            graph,
            policy,
            context,
            state,
            order,
            steps,
            after,
            next,
            interrupt,
        )
}

/// Whether node `name`, with goto `targets`, may send the run on `state`
/// to `target`, which it may not reach: a goto target that is no node, or,
/// without goto targets, a choice of its router that is not among its
/// edges' targets or is no node.
pub open spec fn route_goes_astray(
    graph: CompiledGraph,
    state: Map<Seq<char>, Value>,
    context: Map<Seq<char>, Value>,
    name: Seq<char>,
    targets: Seq<Seq<char>>,
    target: Seq<char>,
) -> bool {
    if targets.len() > 0 {
        targets.contains(target) && !graph.nodes@.contains_key(target)
    } else {
        graph.conditional_edges@.contains_key(name) && exists|chosen: Vec<String>|
            #[trigger] graph.conditional_edges@[name].router.routes(state, context, Ok(chosen)) && names_view(
                chosen@,
            ).contains(target) && !(names_view(graph.conditional_edges@[name].targets@).contains(target)
                && graph.nodes@.contains_key(target))
    }
}

/// Whether `states` and `actives` are the supersteps a run takes from
/// `start`: it begins at the entry point, and each step that is not the
/// last is a superstep without interrupt that neither finished nor left
/// nothing active.
pub open spec fn run_prefix(
    graph: CompiledGraph,
    policy: CommandPolicy,
    context: Map<Seq<char>, Value>,
    start: Map<Seq<char>, Value>,
    states: Seq<Map<Seq<char>, Value>>,
    actives: Seq<Set<Seq<char>>>,
) -> bool {
    &&& states.len() >= 1
    &&& actives.len() == states.len()
    &&& states[0] == start
    &&& actives[0] == Set::<Seq<char>>::empty().insert(graph.entry_point@)
    &&& forall|j: int|
        0 <= j < states.len() - 1 ==> #[trigger] superstep(
            graph,
            policy,
            context,
            states[j],
            actives[j],
            states[j + 1],
            actives[j + 1],
            None,
        ) && !(actives[j].contains(graph.finish_point@) && actives[j + 1] == Set::<Seq<char>>::empty())
            && actives[j] != Set::<Seq<char>>::empty()
}

/// Whether a run from `start` comes to a point where it cannot go on
/// without having finished: it has taken every superstep a run may take,
/// or nothing is left active.
pub open spec fn run_stalls(
    graph: CompiledGraph,
    policy: CommandPolicy,
    context: Map<Seq<char>, Value>,
    start: Map<Seq<char>, Value>,
) -> bool {
    exists|states: Seq<Map<Seq<char>, Value>>, actives: Seq<Set<Seq<char>>>|
        #[trigger] run_prefix(graph, policy, context, start, states, actives) && (states.len() == MAX_STEPS + 1
            || actives.last() == Set::<Seq<char>>::empty())
}

/// Whether a run from `start` comes to a superstep in which `name`, which
/// is no node of the graph, is active.
pub open spec fn run_meets_missing(
    graph: CompiledGraph,
    policy: CommandPolicy,
    context: Map<Seq<char>, Value>,
    start: Map<Seq<char>, Value>,
    name: Seq<char>,
) -> bool {
    !graph.nodes@.contains_key(name) && exists|states: Seq<Map<Seq<char>, Value>>, actives: Seq<Set<Seq<char>>>|
        #[trigger] run_prefix(graph, policy, context, start, states, actives) && actives.last().contains(name)
}

/// Whether node `name` of `graph`, or the router of its conditional edges,
/// may refuse with `reason` on `state`.
pub open spec fn node_refuses(
    graph: CompiledGraph,
    name: Seq<char>,
    state: Map<Seq<char>, Value>,
    context: Map<Seq<char>, Value>,
    reason: String,
) -> bool {
    (match graph.nodes@[name] {
        GraphNode::Plain(Slot(a)) => a.yields(state, Err(reason)),
        GraphNode::Runtime(Slot(a)) => a.outputs(state, context, Err(reason)),
    }) || (graph.conditional_edges@.contains_key(name) && graph.conditional_edges@[name].router.routes(
        state,
        context,
        Err(reason),
    ))
}

/// Whether a run from `start` comes to a superstep in which node `name` is
/// active and it, or its router, may refuse with `reason` on the state at
/// the start of that superstep.
pub open spec fn run_meets_failure(
    graph: CompiledGraph,
    policy: CommandPolicy,
    context: Map<Seq<char>, Value>,
    start: Map<Seq<char>, Value>,
    name: Seq<char>,
    reason: String,
) -> bool {
    graph.nodes@.contains_key(name) && exists|states: Seq<Map<Seq<char>, Value>>, actives: Seq<Set<Seq<char>>>|
        #[trigger] run_prefix(graph, policy, context, start, states, actives) && actives.last().contains(name)
            && node_refuses(graph, name, states.last(), context, reason)
}

/// Whether a run from `start` comes to a superstep in which node `name` is
/// active and may give, on the state at the start of that superstep,
/// commands that the policy refuses with `reason`.
pub open spec fn run_meets_rejection(
    graph: CompiledGraph,
    policy: CommandPolicy,
    context: Map<Seq<char>, Value>,
    start: Map<Seq<char>, Value>,
    name: Seq<char>,
    reason: Seq<char>,
) -> bool {
    graph.nodes@.contains_key(name) && exists|
        states: Seq<Map<Seq<char>, Value>>,
        actives: Seq<Set<Seq<char>>>,
        out: NodeOutput,
    |
        #[trigger] run_prefix(graph, policy, context, start, states, actives) && actives.last().contains(name)
            && #[trigger] node_gives(graph, name, states.last(), context, out) && policy_refusal(
            commands_view(out.commands@),
            policy,
            name,
        ) == Some(reason)
}

/// Whether a run from `start` comes to a superstep whose turns (its active
/// nodes in ascending order, each run on the state at the start of that
/// superstep) write to the channel field `field` what its channel may
/// refuse with `reason`.
pub open spec fn run_meets_refusal(
    graph: CompiledGraph,
    policy: CommandPolicy,
    context: Map<Seq<char>, Value>,
    start: Map<Seq<char>, Value>,
    field: Seq<char>,
    reason: Seq<char>,
) -> bool {
    graph.channels@.contains_key(field) && exists|
        states: Seq<Map<Seq<char>, Value>>,
        actives: Seq<Set<Seq<char>>>,
        steps: Seq<NodeStep>,
    |
        #[trigger] run_prefix(graph, policy, context, start, states, actives) && #[trigger] ascending(
            step_names(steps),
        ) && step_names(steps).to_set() == actives.last() && (forall|j: int|
            0 <= j < steps.len() ==> #[trigger] step_ok(graph, policy, states.last(), context, steps, j))
            && written(step_patches(steps), field) && graph.channels@[field].0.refuses(
            incoming_json(step_patches(steps), field),
            Some(reason),
        )
}

/// Whether a run from `start` comes to a superstep in which node `name` is
/// active, gives on the state at the start of that superstep commands that
/// resolve to goto targets, and is sent by them, or by its router, to
/// `target`, which it may not reach.
pub open spec fn run_meets_astray(
    graph: CompiledGraph,
    policy: CommandPolicy,
    context: Map<Seq<char>, Value>,
    start: Map<Seq<char>, Value>,
    name: Seq<char>,
    target: Seq<char>,
) -> bool {
    graph.nodes@.contains_key(name) && exists|
        states: Seq<Map<Seq<char>, Value>>,
        actives: Seq<Set<Seq<char>>>,
        out: NodeOutput,
        targets: Seq<Seq<char>>,
        interrupted: bool,
    |
        #[trigger] run_prefix(graph, policy, context, start, states, actives) && actives.last().contains(name)
            && #[trigger] node_gives(graph, name, states.last(), context, out) && #[trigger] resolve_ok(
            commands_view(out.commands@),
            policy,
            targets,
            interrupted,
        ) && route_goes_astray(graph, states.last(), context, name, targets, target)
}

/// What a run from `start` that failed with `e` came to: the error names
/// what the graph lacks or refused, and the run reached that point.
pub open spec fn run_fails(
    graph: CompiledGraph,
    policy: CommandPolicy,
    context: Map<Seq<char>, Value>,
    start: Map<Seq<char>, Value>,
    e: GraphError,
) -> bool {
    run_error_ok(graph, e) && match e {
        GraphError::DidNotReachFinish(_) => run_stalls(graph, policy, context, start),
        GraphError::NodeNotFound(n) => run_meets_missing(graph, policy, context, start, n@),
        GraphError::NodeExecutionFailed { node, reason } => run_meets_failure(
            graph,
            policy,
            context,
            start,
            node@,
            reason,
        ),
        GraphError::CommandRejected { node, reason } => run_meets_rejection(
            graph,
            policy,
            context,
            start,
            node@,
            reason@,
        ),
        GraphError::ChannelMergeFailed { field, reason } => run_meets_refusal(
            graph,
            policy,
            context,
            start,
            field@,
            reason@,
        ),
        GraphError::InvalidGotoTarget { node, target } => run_meets_astray(
            graph,
            policy,
            context,
            start,
            node@,
            target@,
        ),
        GraphError::InvalidConditionalTarget { from, to } => run_meets_astray(graph, policy, context, start, from@, to@),
        _ => false,
    }
}

/// Whether a run from `start` under every event accepted may end
/// interrupted by node `node`.
pub open spec fn run_interrupts(
    graph: CompiledGraph,
    policy: CommandPolicy,
    context: Map<Seq<char>, Value>,
    start: Map<Seq<char>, Value>,
    node: Seq<char>,
) -> bool {
    graph.nodes@.contains_key(node) && exists|state: Map<Seq<char>, Value>, sig: InterruptSignal|
        #[trigger] run_outcome(graph, policy, context, start, state, Some(sig), true) && sig.node@ == node
}

/// How a run from `start` that returned `state` and `interrupt` went: after
/// some supersteps it either stopped at a refusal of the sink, or took one
/// more superstep that led to `state`.  A signal names the node that
/// interrupted that superstep.  With a sink that accepts every event
/// (`complete`) the run never stops early: its last superstep either
/// interrupted (and the signal says so) or finished, the finish node
/// having been active with nothing to follow it.
pub open spec fn run_outcome(
    graph: CompiledGraph,
    policy: CommandPolicy,
    context: Map<Seq<char>, Value>,
    start: Map<Seq<char>, Value>,
    state: Map<Seq<char>, Value>,
    interrupt: Option<InterruptSignal>,
    complete: bool,
) -> bool {
    exists|states: Seq<Map<Seq<char>, Value>>, actives: Seq<Set<Seq<char>>>|
        #[trigger] run_prefix(graph, policy, context, start, states, actives) && (
        (!complete && state == states.last() && interrupt is None) || exists|
            next: Set<Seq<char>>,
            intr: Option<Seq<char>>,
        |
            #[trigger] superstep(graph, policy, context, states.last(), actives.last(), state, next, intr)
                && (interrupt matches Some(sig) ==> intr == Some(sig.node@)) && (complete ==> match intr {
                Some(n) => interrupt matches Some(sig) && sig.node@ == n,
                None => interrupt is None && actives.last().contains(graph.finish_point@) && next == Set::<
                    Seq<char>,
                >::empty(),
            }))
}


/// The same as [`run_outcome`], with the number of supersteps the run
/// completed: those before it stopped at a refusal of the sink, or those
/// before its last one and that one.
pub open spec fn run_outcome_in(
    graph: CompiledGraph,
    policy: CommandPolicy,
    context: Map<Seq<char>, Value>,
    start: Map<Seq<char>, Value>,
    state: Map<Seq<char>, Value>,
    interrupt: Option<InterruptSignal>,
    complete: bool,
    supersteps: int,
) -> bool {
    exists|states: Seq<Map<Seq<char>, Value>>, actives: Seq<Set<Seq<char>>>|
        #[trigger] run_prefix(graph, policy, context, start, states, actives) && (
        (!complete && state == states.last() && interrupt is None && supersteps == states.len() - 1) || (
        supersteps == states.len() && exists|next: Set<Seq<char>>, intr: Option<Seq<char>>|
            #[trigger] superstep(graph, policy, context, states.last(), actives.last(), state, next, intr)
                && (interrupt matches Some(sig) ==> intr == Some(sig.node@)) && (complete ==> match intr {
                Some(n) => interrupt matches Some(sig) && sig.node@ == n,
                None => interrupt is None && actives.last().contains(graph.finish_point@) && next == Set::<
                    Seq<char>,
                >::empty(),
            })))
}


/// One superstep: every active node runs, in ascending name order, on the
/// state at the start of the step, so none sees another's writes; their
/// patches are then merged into the state together; the first node to
/// interrupt is the step's interrupt; without one, each node sends the run
/// to its goto targets if it has any, else where its router chooses, else
/// along its plain edges, and the next active nodes are all of those.
pub proof fn law_superstep(
    graph: CompiledGraph,
    policy: CommandPolicy,
    context: Map<Seq<char>, Value>,
    state: Map<Seq<char>, Value>,
    active: Set<Seq<char>>,
    after: Map<Seq<char>, Value>,
    next: Set<Seq<char>>,
    interrupt: Option<Seq<char>>,
)
    requires
        superstep(graph, policy, context, state, active, after, next, interrupt),
    ensures
        exists|order: Seq<Seq<char>>, steps: Seq<NodeStep>|
            #[trigger] ascending(order) && order.to_set() == active && #[trigger] steps.len() == order.len() && (
            forall|j: int|
                0 <= j < steps.len() ==> (#[trigger] steps[j]).name == order[j] && node_gives(
                    graph,
                    order[j],
                    state,
                    context,
                    steps[j].output,
                )) && writes_applied(state, after, step_patches(steps), graph.reducers@, graph.channels@)
                && interrupt == first_interrupt(steps) && (interrupt is None ==> next == union_next(steps) && forall|
                j: int,
            |
                0 <= j < steps.len() ==> route_ok(
                    graph,
                    state,
                    context,
                    order[j],
                    (#[trigger] steps[j]).targets,
                    steps[j].next,
                )),
{
    let (order, steps) = choose|order: Seq<Seq<char>>, steps: Seq<NodeStep>|
        ascending(order) && order.to_set() == active && #[trigger] superstep_by(
            graph,
            policy,
            context,
            state,
            order,
            steps,
            after,
            next,
            interrupt,
        );
    assert forall|j: int| 0 <= j < steps.len() implies (#[trigger] steps[j]).name == order[j] && node_gives(
        graph,
        order[j],
        state,
        context,
        steps[j].output,
    ) by {
        assert(step_ok(graph, policy, state, context, steps, j));
    }
    if interrupt is None {
        lemma_quiet_all(steps);
        assert forall|j: int| 0 <= j < steps.len() implies route_ok(
            graph,
            state,
            context,
            order[j],
            (#[trigger] steps[j]).targets,
            steps[j].next,
        ) by {
            assert(step_ok(graph, policy, state, context, steps, j));
            assert(quiet_upto(steps, j + 1));
        }
    }
}

/// With no interrupt first, no node interrupted.
proof fn lemma_quiet_all(steps: Seq<NodeStep>)
    requires
        first_interrupt(steps) is None,
    ensures
        quiet_upto(steps, steps.len() as int),
    decreases steps.len(),
{
    if steps.len() > 0 {
        lemma_quiet_all(steps.drop_last());
        assert forall|i: int| 0 <= i < steps.len() implies !(#[trigger] steps[i]).interrupted by {
            if i < steps.len() - 1 {
                assert(steps.drop_last()[i] == steps[i]);
            }
        }
    }
}

/// A run that accepted every event and ended without interrupt ended with
/// a superstep in which the finish node was active and sent nowhere, and
/// no superstep before it did so.
pub proof fn law_finish_detection(
    graph: CompiledGraph,
    policy: CommandPolicy,
    context: Map<Seq<char>, Value>,
    start: Map<Seq<char>, Value>,
    state: Map<Seq<char>, Value>,
)
    requires
        run_outcome(graph, policy, context, start, state, None, true),
    ensures
        exists|states: Seq<Map<Seq<char>, Value>>, actives: Seq<Set<Seq<char>>>, next: Set<Seq<char>>|
            #[trigger] run_prefix(graph, policy, context, start, states, actives) && #[trigger] superstep(
                graph,
                policy,
                context,
                states.last(),
                actives.last(),
                state,
                next,
                None,
            ) && actives.last().contains(graph.finish_point@) && next == Set::<Seq<char>>::empty() && forall|j: int|
                0 <= j < states.len() - 1 ==> !(#[trigger] actives[j].contains(graph.finish_point@) && actives[j
                    + 1] == Set::<Seq<char>>::empty()),
{
    let (states, actives) = choose|states: Seq<Map<Seq<char>, Value>>, actives: Seq<Set<Seq<char>>>|
        #[trigger] run_prefix(graph, policy, context, start, states, actives) && exists|
            next: Set<Seq<char>>,
            intr: Option<Seq<char>>,
        |
            #[trigger] superstep(graph, policy, context, states.last(), actives.last(), state, next, intr) && match intr {
                Some(n) => false,
                None => actives.last().contains(graph.finish_point@) && next == Set::<Seq<char>>::empty(),
            };
    let (next, intr) = choose|next: Set<Seq<char>>, intr: Option<Seq<char>>|
        #[trigger] superstep(graph, policy, context, states.last(), actives.last(), state, next, intr) && match intr {
            Some(n) => false,
            None => actives.last().contains(graph.finish_point@) && next == Set::<Seq<char>>::empty(),
        };
    assert forall|j: int| 0 <= j < states.len() - 1 implies !(#[trigger] actives[j].contains(graph.finish_point@)
        && actives[j + 1] == Set::<Seq<char>>::empty()) by {
        assert(superstep(graph, policy, context, states[j], actives[j], states[j + 1], actives[j + 1], None));
    }
}

/// The events of one node's turn in superstep `s`: it started, it finished
/// with its patch, and each of its commands, in order.
pub open spec fn turn_events(s: usize, t: NodeStep) -> Seq<EventView> {
    seq![EventView::NodeStarted(t.name, s), EventView::NodeFinished(t.name, s, json_map(t.output.patch))]
        + commands_view(t.output.commands@).map_values(|c: CommandView| EventView::CommandEmitted(t.name, s, c))
}

/// The events of the turns of superstep `s`, in order.
pub open spec fn turns_events(s: usize, steps: Seq<NodeStep>) -> Seq<EventView>
    decreases steps.len(),
{
    if steps.len() == 0 {
        Seq::empty()
    } else {
        turns_events(s, steps.drop_last()) + turn_events(s, steps.last())
    }
}

/// The fields the turns wrote, with their values in `after`.
pub open spec fn chunk_map(after: Map<Seq<char>, Value>, steps: Seq<NodeStep>) -> Map<Seq<char>, Json> {
    Map::new(|k: Seq<char>| written(step_patches(steps), k) && after.contains_key(k), |k: Seq<char>| after[k]@)
}

/// The events of superstep `s`: its turns, then the merged values of the
/// fields written (when there are any).
pub open spec fn step_events(s: usize, steps: Seq<NodeStep>, after: Map<Seq<char>, Value>) -> Seq<EventView> {
    turns_events(s, steps) + if chunk_map(after, steps).dom() == Set::<Seq<char>>::empty() {
        Seq::empty()
    } else {
        seq![EventView::StateChunk(s, chunk_map(after, steps))]
    }
}

/// The nodes of the turns, in order.
pub open spec fn step_names(steps: Seq<NodeStep>) -> Seq<Seq<char>> {
    steps.map_values(|t: NodeStep| t.name)
}

/// Whether `stepss` are the turns of the supersteps between `states`.
pub open spec fn chain_steps(
    graph: CompiledGraph,
    policy: CommandPolicy,
    context: Map<Seq<char>, Value>,
    states: Seq<Map<Seq<char>, Value>>,
    actives: Seq<Set<Seq<char>>>,
    stepss: Seq<Seq<NodeStep>>,
) -> bool {
    &&& stepss.len() + 1 == states.len()
    &&& forall|j: int|
        0 <= j < stepss.len() ==> ascending(step_names(#[trigger] stepss[j])) && step_names(stepss[j]).to_set()
            == actives[j] && superstep_by(
            graph,
            policy,
            context,
            states[j],
            step_names(stepss[j]),
            stepss[j],
            states[j + 1],
            actives[j + 1],
            None,
        )
}

/// The events of the supersteps `stepss` leading to `states`.
pub open spec fn steps_events(stepss: Seq<Seq<NodeStep>>, states: Seq<Map<Seq<char>, Value>>) -> Seq<EventView>
    decreases stepss.len(),
{
    if stepss.len() == 0 {
        Seq::empty()
    } else {
        steps_events(stepss.drop_last(), states) + step_events(
            stepss.len() as usize,
            stepss.last(),
            states[stepss.len() as int],
        )
    }
}

/// The events that end a run in superstep `s` with state `state`: an
/// interrupt and the completion with its signal, or the completion.
pub open spec fn ending_events(
    s: usize,
    state: Map<Seq<char>, Value>,
    interrupt: Option<Seq<char>>,
    metadata: MetadataView,
) -> Seq<EventView> {
    let content = state.map_values(|v: Value| v@);
    match interrupt {
        Some(n) => seq![EventView::Interrupted(n, s), EventView::Completed(content, metadata, Some((n, s)))],
        None => seq![EventView::Completed(content, metadata, None)],
    }
}

/// The content of a command trace entry: node, superstep, command.
pub open spec fn trace_view(e: CommandTraceEvent) -> (Seq<char>, usize, CommandView) {
    (e.node@, e.superstep, e.command@)
}

/// The contents of trace entries, in order.
pub open spec fn trace_views(t: Seq<CommandTraceEvent>) -> Seq<(Seq<char>, usize, CommandView)> {
    t.map_values(|e: CommandTraceEvent| trace_view(e))
}

/// The trace entries of one node's turn in superstep `s`: its commands.
pub open spec fn turn_trace(s: usize, t: NodeStep) -> Seq<(Seq<char>, usize, CommandView)> {
    commands_view(t.output.commands@).map_values(|c: CommandView| (t.name, s, c))
}

/// The trace entries of the turns of superstep `s`, in order.
pub open spec fn turns_trace(s: usize, steps: Seq<NodeStep>) -> Seq<(Seq<char>, usize, CommandView)>
    decreases steps.len(),
{
    if steps.len() == 0 {
        Seq::empty()
    } else {
        turns_trace(s, steps.drop_last()) + turn_trace(s, steps.last())
    }
}

/// The trace entries of the supersteps `stepss`, in order.
pub open spec fn steps_trace(stepss: Seq<Seq<NodeStep>>) -> Seq<(Seq<char>, usize, CommandView)>
    decreases stepss.len(),
{
    if stepss.len() == 0 {
        Seq::empty()
    } else {
        steps_trace(stepss.drop_last()) + turns_trace(stepss.len() as usize, stepss.last())
    }
}

/// Whether a run from `start` that ended with `state` recorded `trace`:
/// every command of every node, in the order the nodes ran, with its node
/// and superstep.
pub open spec fn run_trace(
    graph: CompiledGraph,
    policy: CommandPolicy,
    context: Map<Seq<char>, Value>,
    start: Map<Seq<char>, Value>,
    state: Map<Seq<char>, Value>,
    trace: Seq<(Seq<char>, usize, CommandView)>,
) -> bool {
    exists|
        states: Seq<Map<Seq<char>, Value>>,
        actives: Seq<Set<Seq<char>>>,
        stepss: Seq<Seq<NodeStep>>,
        last: Seq<NodeStep>,
        next: Set<Seq<char>>,
        intr: Option<Seq<char>>,
    |
        #[trigger] run_prefix(graph, policy, context, start, states, actives) && #[trigger] chain_steps(
            graph,
            policy,
            context,
            states,
            actives,
            stepss,
        ) && ascending(step_names(last)) && step_names(last).to_set() == actives.last() && #[trigger] superstep_by(
            graph,
            policy,
            context,
            states.last(),
            step_names(last),
            last,
            state,
            next,
            intr,
        ) && trace == steps_trace(stepss) + turns_trace(states.len() as usize, last)
}

/// The channel versions after the supersteps `stepss`, from `init`: each
/// superstep bumps once every channel field it writes.
#[verifier::opaque]
pub open spec fn versions_through(
    init: Map<Seq<char>, u64>,
    stepss: Seq<Seq<NodeStep>>,
    channels: Map<Seq<char>, ChannelEntry>,
) -> Map<Seq<char>, u64>
    decreases stepss.len(),
{
    if stepss.len() == 0 {
        init
    } else {
        versions_after(
            versions_through(init, stepss.drop_last(), channels),
            written_channels(step_patches(stepss.last()), channels),
        )
    }
}

/// Versions through one more superstep.
proof fn lemma_versions_through_push(
    init: Map<Seq<char>, u64>,
    stepss: Seq<Seq<NodeStep>>,
    steps: Seq<NodeStep>,
    channels: Map<Seq<char>, ChannelEntry>,
)
    ensures
        versions_through(init, Seq::empty(), channels) == init,
        versions_through(init, stepss.push(steps), channels) == versions_after(
            versions_through(init, stepss, channels),
            written_channels(step_patches(steps), channels),
        ),
{
    reveal(versions_through);
    assert(stepss.push(steps).drop_last() =~= stepss);
}

/// Whether `m` is the metadata of a run from `start` that ended with
/// `state`: the supersteps it took, the versions its writes gave the
/// channel fields starting from `init` (and saw), and its command trace.
pub open spec fn run_metadata(
    graph: CompiledGraph,
    policy: CommandPolicy,
    context: Map<Seq<char>, Value>,
    start: Map<Seq<char>, Value>,
    state: Map<Seq<char>, Value>,
    init: Map<Seq<char>, u64>,
    m: ExecutionMetadata,
) -> bool {
    exists|
        states: Seq<Map<Seq<char>, Value>>,
        actives: Seq<Set<Seq<char>>>,
        stepss: Seq<Seq<NodeStep>>,
        last: Seq<NodeStep>,
        next: Set<Seq<char>>,
        intr: Option<Seq<char>>,
    |
        #[trigger] run_prefix(graph, policy, context, start, states, actives) && #[trigger] chain_steps(
            graph,
            policy,
            context,
            states,
            actives,
            stepss,
        ) && ascending(step_names(last)) && step_names(last).to_set() == actives.last() && #[trigger] superstep_by(
            graph,
            policy,
            context,
            states.last(),
            step_names(last),
            last,
            state,
            next,
            intr,
        ) && m.supersteps == states.len() && m.channel_versions@ == versions_through(
            init,
            stepss.push(last),
            graph.channels@,
        ) && m.versions_seen@ == m.channel_versions@ && trace_views(m.command_trace@) == steps_trace(stepss)
            + turns_trace(states.len() as usize, last)
}

/// Whether a sink that received `before` before a run from `start`, and
/// `after` once the run ended with `state`, received that run's events in
/// order: for each superstep, each node's start, finish and commands, then
/// the merged values of the fields written; at the end, the interrupt (if
/// any) and the completion with the run's `metadata`.
pub open spec fn run_events(
    graph: CompiledGraph,
    policy: CommandPolicy,
    context: Map<Seq<char>, Value>,
    start: Map<Seq<char>, Value>,
    before: Seq<EventView>,
    after: Seq<EventView>,
    state: Map<Seq<char>, Value>,
    metadata: MetadataView,
) -> bool {
    exists|
        states: Seq<Map<Seq<char>, Value>>,
        actives: Seq<Set<Seq<char>>>,
        stepss: Seq<Seq<NodeStep>>,
        last: Seq<NodeStep>,
        next: Set<Seq<char>>,
        intr: Option<Seq<char>>,
    |
        #[trigger] run_prefix(graph, policy, context, start, states, actives) && #[trigger] chain_steps(
            graph,
            policy,
            context,
            states,
            actives,
            stepss,
        ) && ascending(step_names(last)) && step_names(last).to_set() == actives.last() && #[trigger] superstep_by(
            graph,
            policy,
            context,
            states.last(),
            step_names(last),
            last,
            state,
            next,
            intr,
        ) && after == before + steps_events(stepss, states) + step_events(states.len() as usize, last, state)
            + ending_events(states.len() as usize, state, intr, metadata)
}

proof fn lemma_steps_events_prefix(
    stepss: Seq<Seq<NodeStep>>,
    states: Seq<Map<Seq<char>, Value>>,
    more: Seq<Map<Seq<char>, Value>>,
)
    requires
        stepss.len() + 1 <= states.len(),
        stepss.len() + 1 <= more.len(),
        forall|i: int| 0 <= i <= stepss.len() ==> states[i] == more[i],
    ensures
        steps_events(stepss, states) == steps_events(stepss, more),
    decreases stepss.len(),
{
    if stepss.len() > 0 {
        lemma_steps_events_prefix(stepss.drop_last(), states, more);
    }
}

/// The values in `state` of the fields in `touched`.
fn chunk_of(touched: &StrSet, state: &State) -> (chunk: StatePatch)
    ensures
        json_map(chunk) == Map::new(
            |k: Seq<char>| touched@.contains(k) && state@.contains_key(k),
            |k: Seq<char>| state@[k]@,
        ),
{
    let mut chunk: StatePatch = StrMap::new();
    let tn = touched.len();
    proof {
        touched.lemma_elems();
        assert(json_map(chunk) =~= Map::new(
            |k: Seq<char>| touched.elems().subrange(0, 0).contains(k) && state@.contains_key(k),
            |k: Seq<char>| state@[k]@,
        ));
    }
    let mut q: usize = 0;
    while q < tn
        invariant
            tn == touched.elems().len(),
            q <= tn,
            json_map(chunk) == Map::new(
                |k: Seq<char>| touched.elems().subrange(0, q as int).contains(k) && state@.contains_key(k),
                |k: Seq<char>| state@[k]@,
            ),
        decreases tn - q,
    {
        let key = touched.at(q);
        let ghost prefix = touched.elems().subrange(0, q as int);
        let ghost before = json_map(chunk);
        match state.get(key.as_str()) {
            Some(value) => {
                let v = value.copy();
                chunk.insert(key.clone(), v);
                proof {
                    assert(json_map(chunk) =~= before.insert(key@, state@[key@]@));
                }
            },
            None => {
                proof {
                    assert(!state@.contains_key(key@));
                }
            },
        }
        proof {
            assert(touched.elems().subrange(0, q + 1) =~= prefix.push(key@));
            assert forall|k: Seq<char>| touched.elems().subrange(0, q + 1).contains(k) == (prefix.contains(k) || k == key@) by {
                if touched.elems().subrange(0, q + 1).contains(k) && k != key@ {
                    let j = choose|j: int| 0 <= j < q + 1 && #[trigger] touched.elems().subrange(0, q + 1)[j] == k;
                    assert(prefix[j] == k);
                }
                if prefix.contains(k) {
                    let j = choose|j: int| 0 <= j < q && #[trigger] prefix[j] == k;
                    assert(touched.elems().subrange(0, q + 1)[j] == k);
                }
                if k == key@ {
                    assert(touched.elems().subrange(0, q + 1)[q as int] == k);
                }
            }
            let target = Map::new(
                |k: Seq<char>| touched.elems().subrange(0, q + 1).contains(k) && state@.contains_key(k),
                |k: Seq<char>| state@[k]@,
            );
            assert forall|k: Seq<char>| json_map(chunk).contains_key(k) == target.contains_key(k) by {
                assert(before.contains_key(k) == (prefix.contains(k) && state@.contains_key(k)));
            }
            assert forall|k: Seq<char>| json_map(chunk).contains_key(k) implies json_map(chunk)[k] == target[k] by {
                assert(target.contains_key(k));
                assert(target[k] == state@[k]@);
                if k != key@ {
                    assert(before.contains_key(k));
                    assert(before[k] == state@[k]@);
                } else if state@.contains_key(key@) {
                    assert(json_map(chunk)[k] == state@[k]@);
                }
            }
            assert(json_map(chunk) =~= target);
        }
        q = q + 1;
    }
    proof {
        touched.lemma_elems();
        assert(touched.elems().subrange(0, tn as int) =~= touched.elems());
        assert forall|k: Seq<char>| touched.elems().contains(k) == touched@.contains(k) by {
            if touched.elems().contains(k) {
                let j = choose|j: int| 0 <= j < touched.elems().len() && touched.elems()[j] == k;
            }
        }
        assert(json_map(chunk) =~= Map::new(
            |k: Seq<char>| touched@.contains(k) && state@.contains_key(k),
            |k: Seq<char>| state@[k]@,
        ));
    }
    chunk
}

/// One more turn of a superstep: the turns so far stay as they were, and
/// the new one is checked as it came.
proof fn lemma_push_turn(
    graph: CompiledGraph,
    policy: CommandPolicy,
    state: Map<Seq<char>, Value>,
    context: Map<Seq<char>, Value>,
    steps: Seq<NodeStep>,
    rec: NodeStep,
    names: Seq<Seq<char>>,
    i: int,
    s: usize,
)
    requires
        steps.len() == i,
        0 <= i < names.len(),
        forall|j: int| 0 <= j < i ==> (#[trigger] steps[j]).name == names[j] && step_ok(graph, policy, state, context, steps, j),
        rec.name == names[i],
        graph.nodes@.contains_key(rec.name),
        node_gives(graph, rec.name, state, context, rec.output),
        policy_refusal(commands_view(rec.output.commands@), policy, rec.name) is None,
        resolve_ok(commands_view(rec.output.commands@), policy, rec.targets, rec.interrupted),
        if quiet_upto(steps, i) && !rec.interrupted {
            route_ok(graph, state, context, rec.name, rec.targets, rec.next)
        } else {
            rec.next == Set::<Seq<char>>::empty()
        },
    ensures
        forall|j: int| 0 <= j < i + 1 ==> (#[trigger] steps.push(rec)[j]).name == names[j] && step_ok(
            graph,
            policy,
            state,
            context,
            steps.push(rec),
            j,
        ),
        quiet_upto(steps.push(rec), i + 1) == (quiet_upto(steps, i) && !rec.interrupted),
        first_interrupt(steps.push(rec)) == (match first_interrupt(steps) {
            Some(n) => Some(n),
            None => if rec.interrupted {
                Some(rec.name)
            } else {
                None
            },
        }),
        union_next(steps.push(rec)) == union_next(steps) + rec.next,
        step_patches(steps.push(rec)) == step_patches(steps).push(rec.output.patch),
        turns_events(s, steps.push(rec)) == turns_events(s, steps) + turn_events(s, rec),
        turns_trace(s, steps.push(rec)) == turns_trace(s, steps) + turn_trace(s, rec),
{
    let recs = steps.push(rec);
    assert(recs.drop_last() =~= steps);
    assert(recs[i] == rec);
    assert forall|k: int| 0 <= k < i implies #[trigger] recs[k] == steps[k] by {}
    assert(quiet_upto(recs, i) == quiet_upto(steps, i)) by {
        assert forall|k: int| 0 <= k < i implies #[trigger] recs[k] == steps[k] by {}
    }
    assert(quiet_upto(recs, i + 1) == (quiet_upto(steps, i) && !rec.interrupted)) by {
        if quiet_upto(steps, i) && !rec.interrupted {
            assert forall|k: int| 0 <= k < i + 1 implies !(#[trigger] recs[k]).interrupted by {
                if k < i {
                    assert(recs[k] == steps[k]);
                }
            }
        }
    }
    assert forall|j: int| 0 <= j < i + 1 implies (#[trigger] recs[j]).name == names[j] && step_ok(
        graph,
        policy,
        state,
        context,
        recs,
        j,
    ) by {
        if j < i {
            assert(recs[j] == steps[j]);
            assert(step_ok(graph, policy, state, context, steps, j));
            assert(quiet_upto(recs, j + 1) == quiet_upto(steps, j + 1)) by {
                assert forall|k: int| 0 <= k < j + 1 implies #[trigger] recs[k] == steps[k] by {}
            }
        }
    }
    assert(step_patches(recs) =~= step_patches(steps).push(rec.output.patch));
}

/// A superstep without interrupt that did not finish extends a run.
proof fn lemma_extend_run(
    graph: CompiledGraph,
    policy: CommandPolicy,
    context: Map<Seq<char>, Value>,
    start: Map<Seq<char>, Value>,
    states: Seq<Map<Seq<char>, Value>>,
    actives: Seq<Set<Seq<char>>>,
    stepss: Seq<Seq<NodeStep>>,
    steps: Seq<NodeStep>,
    after: Map<Seq<char>, Value>,
    next: Set<Seq<char>>,
)
    requires
        run_prefix(graph, policy, context, start, states, actives),
        chain_steps(graph, policy, context, states, actives, stepss),
        ascending(step_names(steps)),
        step_names(steps).to_set() == actives.last(),
        superstep_by(graph, policy, context, states.last(), step_names(steps), steps, after, next, None),
        !(actives.last().contains(graph.finish_point@) && next == Set::<Seq<char>>::empty()),
        actives.last() != Set::<Seq<char>>::empty(),
    ensures
        run_prefix(graph, policy, context, start, states.push(after), actives.push(next)),
        chain_steps(graph, policy, context, states.push(after), actives.push(next), stepss.push(steps)),
{
    let states2 = states.push(after);
    let actives2 = actives.push(next);
    let stepss2 = stepss.push(steps);
    assert(superstep(graph, policy, context, states.last(), actives.last(), after, next, None));
    assert forall|j: int| 0 <= j < states2.len() - 1 implies #[trigger] superstep(
        graph,
        policy,
        context,
        states2[j],
        actives2[j],
        states2[j + 1],
        actives2[j + 1],
        None,
    ) && !(actives2[j].contains(graph.finish_point@) && actives2[j + 1] == Set::<Seq<char>>::empty())
        && actives2[j] != Set::<Seq<char>>::empty() by {
        if j < states.len() - 1 {
            assert(states2[j] == states[j] && states2[j + 1] == states[j + 1]);
            assert(actives2[j] == actives[j] && actives2[j + 1] == actives[j + 1]);
        } else {
            assert(states2[j] == states.last() && actives2[j] == actives.last());
        }
    }
    assert forall|j: int| 0 <= j < stepss2.len() implies ascending(step_names(#[trigger] stepss2[j]))
        && step_names(stepss2[j]).to_set() == actives2[j] && superstep_by(
        graph,
        policy,
        context,
        states2[j],
        step_names(stepss2[j]),
        stepss2[j],
        states2[j + 1],
        actives2[j + 1],
        None,
    ) by {
        if j < stepss.len() {
            assert(stepss2[j] == stepss[j]);
            assert(states2[j] == states[j] && states2[j + 1] == states[j + 1]);
            assert(actives2[j] == actives[j] && actives2[j + 1] == actives[j + 1]);
        } else {
            assert(stepss2[j] == steps);
            assert(states2[j] == states.last());
            assert(actives2[j] == actives.last());
        }
    }
}

/// The events of one more superstep follow those of the earlier ones.
proof fn lemma_steps_events_push(
    stepss: Seq<Seq<NodeStep>>,
    states: Seq<Map<Seq<char>, Value>>,
    steps: Seq<NodeStep>,
    after: Map<Seq<char>, Value>,
)
    requires
        stepss.len() + 1 == states.len(),
    ensures
        steps_events(stepss.push(steps), states.push(after)) == steps_events(stepss, states) + step_events(
            states.len() as usize,
            steps,
            after,
        ),
{
    let stepss2 = stepss.push(steps);
    let states2 = states.push(after);
    assert(stepss2.drop_last() =~= stepss);
    lemma_steps_events_prefix(stepss, states, states2);
}

/// A run that ended after its supersteps with metadata built along them
/// has that metadata.
proof fn lemma_run_metadata(
    graph: CompiledGraph,
    policy: CommandPolicy,
    context: Map<Seq<char>, Value>,
    start: Map<Seq<char>, Value>,
    states: Seq<Map<Seq<char>, Value>>,
    actives: Seq<Set<Seq<char>>>,
    stepss: Seq<Seq<NodeStep>>,
    steps: Seq<NodeStep>,
    after: Map<Seq<char>, Value>,
    next: Set<Seq<char>>,
    intr: Option<Seq<char>>,
    init: Map<Seq<char>, u64>,
    m: ExecutionMetadata,
)
    requires
        run_prefix(graph, policy, context, start, states, actives),
        chain_steps(graph, policy, context, states, actives, stepss),
        ascending(step_names(steps)),
        step_names(steps).to_set() == actives.last(),
        superstep_by(graph, policy, context, states.last(), step_names(steps), steps, after, next, intr),
        m.supersteps == states.len(),
        m.channel_versions@ == versions_after(
            versions_through(init, stepss, graph.channels@),
            written_channels(step_patches(steps), graph.channels@),
        ),
        m.versions_seen@ == m.channel_versions@,
        trace_views(m.command_trace@) == steps_trace(stepss) + turns_trace(states.len() as usize, steps),
    ensures
        run_metadata(graph, policy, context, start, after, init, m),
{
    lemma_versions_through_push(init, stepss, steps, graph.channels@);
}

/// The command trace of a run's metadata is the run's trace.
pub proof fn lemma_metadata_trace(
    graph: CompiledGraph,
    policy: CommandPolicy,
    context: Map<Seq<char>, Value>,
    start: Map<Seq<char>, Value>,
    state: Map<Seq<char>, Value>,
    init: Map<Seq<char>, u64>,
    m: ExecutionMetadata,
)
    requires
        run_metadata(graph, policy, context, start, state, init, m),
    ensures
        run_trace(graph, policy, context, start, state, trace_views(m.command_trace@)),
{
}

/// A sink that received the events of a run's supersteps and of its ending
/// received the run's events.
proof fn lemma_run_events(
    graph: CompiledGraph,
    policy: CommandPolicy,
    context: Map<Seq<char>, Value>,
    start: Map<Seq<char>, Value>,
    states: Seq<Map<Seq<char>, Value>>,
    actives: Seq<Set<Seq<char>>>,
    stepss: Seq<Seq<NodeStep>>,
    steps: Seq<NodeStep>,
    after: Map<Seq<char>, Value>,
    next: Set<Seq<char>>,
    intr: Option<Seq<char>>,
    before: Seq<EventView>,
    received: Seq<EventView>,
    metadata: MetadataView,
)
    requires
        run_prefix(graph, policy, context, start, states, actives),
        chain_steps(graph, policy, context, states, actives, stepss),
        ascending(step_names(steps)),
        step_names(steps).to_set() == actives.last(),
        superstep_by(graph, policy, context, states.last(), step_names(steps), steps, after, next, intr),
        received == before + steps_events(stepss, states) + step_events(states.len() as usize, steps, after)
            + ending_events(states.len() as usize, after, intr, metadata),
    ensures
        run_events(graph, policy, context, start, before, received, after, metadata),
{
}

/// Whether `name` is one of `names`.
fn contains_name(names: &Vec<String>, name: &str) -> (b: bool)
    ensures
        b == crate::runtime::names_view(names@).contains(name@),
{
    let mut i: usize = 0;
    while i < names.len()
        invariant
            i <= names@.len(),
            forall|j: int| 0 <= j < i ==> names@[j]@ != name@,
        decreases names@.len() - i,
    {
        if str_eq(names[i].as_str(), name) {
            proof {
                assert(crate::runtime::names_view(names@)[i as int] == name@);
            }
            return true;
        }
        i = i + 1;
    }
    false
}

/// Sends the run on from node `name`, which did not interrupt: to its goto
/// `targets` if it has any, else as its router chooses, else along its
/// plain edges.  Adds those nodes to `next_active` and gives them back.
fn route_node(
    graph: &CompiledGraph,
    name: &String,
    state: &State,
    runtime_context: &RuntimeContext,
    targets: Vec<String>,
    next_active: &mut StrSet,
) -> (r: Result<Ghost<Set<Seq<char>>>, GraphError>)
    requires
        graph.nodes@.contains_key(name@),
    ensures
        r matches Ok(next) ==> route_ok(*graph, state@, runtime_context@, name@, names_view(targets@), next@)
            && final(next_active)@ == old(next_active)@ + next@,
        r matches Err(e) ==> run_error_ok(*graph, e) && !(e is DidNotReachFinish) && !(e is NodeNotFound) && !(
        e is CommandRejected) && !(e is ChannelMergeFailed),
        r matches Err(GraphError::InvalidGotoTarget { node, target }) ==> node@ == name@ && route_goes_astray(
            *graph,
            state@,
            runtime_context@,
            name@,
            names_view(targets@),
            target@,
        ),
        r matches Err(GraphError::InvalidConditionalTarget { from, to }) ==> from@ == name@ && route_goes_astray(
            *graph,
            state@,
            runtime_context@,
            name@,
            names_view(targets@),
            to@,
        ),
        r matches Err(GraphError::NodeExecutionFailed { node, reason }) ==> node@ == name@
            && graph.conditional_edges@.contains_key(name@) && graph.conditional_edges@[name@].router.routes(
            state@,
            runtime_context@,
            Err(reason),
        ),
{
    let ghost before = next_active@;
    if targets.len() > 0 {
        let mut t: usize = 0;
        while t < targets.len()
            invariant
                t <= targets@.len(),
                graph.nodes@.contains_key(name@),
                next_active@ == before + names_view(targets@).subrange(0, t as int).to_set(),
                forall|k: int| 0 <= k < t ==> graph.nodes@.contains_key(#[trigger] names_view(targets@)[k]),
            decreases targets@.len() - t,
        {
            if !graph.nodes.contains_key(targets[t].as_str()) {
                proof {
                    assert(names_view(targets@)[t as int] == targets@[t as int]@);
                }
                return Err(GraphError::InvalidGotoTarget { node: name.clone(), target: targets[t].clone() });
            }
            let ghost prefix = names_view(targets@).subrange(0, t as int);
            next_active.insert(targets[t].clone());
            proof {
                assert(names_view(targets@).subrange(0, t + 1) =~= prefix.push(targets@[t as int]@));
                prefix.lemma_push_to_set_commute(targets@[t as int]@);
                assert(next_active@ =~= before + names_view(targets@).subrange(0, t + 1).to_set());
            }
            t = t + 1;
        }
        proof {
            assert(names_view(targets@).subrange(0, targets@.len() as int) =~= names_view(targets@));
        }
        return Ok(Ghost(names_view(targets@).to_set()));
    }
    match graph.conditional_edges.get(name.as_str()) {
        Some(conditional) => {
            let answer = conditional.router.route(state, runtime_context);
            let routed = match answer {
                Ok(routed) => routed,
                Err(reason) => {
                    return Err(GraphError::NodeExecutionFailed { node: name.clone(), reason });
                },
            };
            let ghost chosen = routed;
            let mut t: usize = 0;
            while t < routed.len()
                invariant
                    t <= routed@.len(),
                    routed == chosen,
                    targets@.len() == 0,
                    conditional.router.routes(state@, runtime_context@, Ok(chosen)),
                    graph.nodes@.contains_key(name@),
                    graph.conditional_edges@.contains_key(name@),
                    graph.conditional_edges@[name@] == *conditional,
                    next_active@ == before + names_view(routed@).subrange(0, t as int).to_set(),
                    forall|k: int| 0 <= k < t ==> names_view(conditional.targets@).contains(#[trigger] routed@[k]@)
                        && graph.nodes@.contains_key(routed@[k]@),
                decreases routed@.len() - t,
            {
                let target = &routed[t];
                if !contains_name(&conditional.targets, target.as_str()) || !graph.nodes.contains_key(target.as_str()) {
                    proof {
                        assert(names_view(routed@)[t as int] == target@);
                        assert(graph.conditional_edges@[name@].router.routes(state@, runtime_context@, Ok(chosen)));
                    }
                    return Err(GraphError::InvalidConditionalTarget { from: name.clone(), to: target.clone() });
                }
                let ghost prefix = names_view(routed@).subrange(0, t as int);
                next_active.insert(target.clone());
                proof {
                    assert(names_view(routed@).subrange(0, t + 1) =~= prefix.push(routed@[t as int]@));
                    prefix.lemma_push_to_set_commute(routed@[t as int]@);
                    assert(next_active@ =~= before + names_view(routed@).subrange(0, t + 1).to_set());
                }
                t = t + 1;
            }
            proof {
                assert(names_view(routed@).subrange(0, routed@.len() as int) =~= names_view(routed@));
                assert(graph.conditional_edges@[name@].router.routes(state@, runtime_context@, Ok(chosen)));
            }
            Ok(Ghost(names_view(routed@).to_set()))
        },
        None => {
            match graph.adjacency.get(name.as_str()) {
                Some(next_nodes) => {
                    let mut t: usize = 0;
                    while t < next_nodes.len()
                        invariant
                            t <= next_nodes@.len(),
                            next_active@ == before + names_view(next_nodes@).subrange(0, t as int).to_set(),
                        decreases next_nodes@.len() - t,
                    {
                        let ghost prefix = names_view(next_nodes@).subrange(0, t as int);
                        next_active.insert(next_nodes[t].clone());
                        proof {
                            assert(names_view(next_nodes@).subrange(0, t + 1) =~= prefix.push(next_nodes@[t as int]@));
                            prefix.lemma_push_to_set_commute(next_nodes@[t as int]@);
                            assert(next_active@ =~= before + names_view(next_nodes@).subrange(0, t + 1).to_set());
                        }
                        t = t + 1;
                    }
                    proof {
                        assert(names_view(next_nodes@).subrange(0, next_nodes@.len() as int) =~= names_view(next_nodes@));
                    }
                    Ok(Ghost(names_view(next_nodes@).to_set()))
                },
                None => {
                    proof {
                        assert(next_active@ =~= before + Set::<Seq<char>>::empty());
                    }
                    Ok(Ghost(Set::<Seq<char>>::empty()))
                },
            }
        },
    }
}

/// A copy of a command trace.
fn copy_trace(trace: &Vec<CommandTraceEvent>) -> (r: Vec<CommandTraceEvent>)
    ensures
        r@.len() == trace@.len(),
        forall|i: int| 0 <= i < trace@.len() ==> (#[trigger] r@[i]).node == trace@[i].node
            && r@[i].superstep == trace@[i].superstep && r@[i].command@ == trace@[i].command@,
{
    let mut out: Vec<CommandTraceEvent> = Vec::new();
    let mut i: usize = 0;
    while i < trace.len()
        invariant
            i <= trace@.len(),
            out@.len() == i,
            forall|j: int| 0 <= j < i ==> (#[trigger] out@[j]).node == trace@[j].node
                && out@[j].superstep == trace@[j].superstep && out@[j].command@ == trace@[j].command@,
        decreases trace@.len() - i,
    {
        let e = &trace[i];
        out.push(CommandTraceEvent { node: e.node.clone(), superstep: e.superstep, command: e.command.copy() });
        i = i + 1;
    }
    out
}

/// A copy of run metadata.
fn copy_metadata(m: &ExecutionMetadata) -> (r: ExecutionMetadata)
    ensures
        r.supersteps == m.supersteps,
        r.channel_versions@ == m.channel_versions@,
        r.versions_seen@ == m.versions_seen@,
        r.command_trace@.len() == m.command_trace@.len(),
        metadata_view(r) == metadata_view(*m),
{
    let trace = copy_trace(&m.command_trace);
    proof {
        assert(trace_views(trace@) =~= trace_views(m.command_trace@));
    }
    ExecutionMetadata {
        supersteps: m.supersteps,
        channel_versions: m.channel_versions.copy_counts(),
        versions_seen: m.versions_seen.copy_counts(),
        command_trace: trace,
    }
}

fn copy_signal(s: &Option<InterruptSignal>) -> (r: Option<InterruptSignal>)
    ensures
        r == *s,
{
    match s {
        Some(sig) => Some(InterruptSignal { node: sig.node.clone(), superstep: sig.superstep }),
        None => None,
    }
}

proof fn lemma_versions_step(
    cv: Map<Seq<char>, u64>,
    w: Set<Seq<char>>,
)
    ensures
        seen_after(cv, versions_after(cv, w), w) == versions_after(cv, w),
        forall|k: Seq<char>| #[trigger] cv.contains_key(k) ==> versions_after(cv, w).contains_key(k)
            && versions_after(cv, w)[k] >= cv[k],
{
    assert(seen_after(cv, versions_after(cv, w), w) =~= versions_after(cv, w));
}

impl SequentialExecutor {
    /// Runs `graph` from `state`, reporting events to `sink`.  When the sink
    /// refuses an event the run stops there and returns what it has.
    #[verifier::loop_isolation(false)]
    #[verifier::rlimit(100)]
    #[verifier::spinoff_prover]
    pub fn run_with_sink<S: EventSink>(
        &self,
        graph: &CompiledGraph,
        initial_state: State,
        runtime_context: &RuntimeContext,
        initial_versions: VersionMap,
        command_policy: &CommandPolicy,
        sink: &mut S,
    ) -> (r: Result<CommandExecutionResult, GraphError>)
        ensures
            r matches Ok(res) ==> metadata_ok(*graph, initial_versions@, res.metadata) && interrupt_ok(
                *graph,
                res.metadata,
                res.interrupt,
            ),
            r matches Ok(res) ==> initial_state@.dom().subset_of(res.state@.dom()),
            r matches Ok(res) ==> run_outcome(
                *graph,
                *command_policy,
                runtime_context@,
                initial_state@,
                res.state@,
                res.interrupt,
                old(sink).accepts_all(),
            ),
            r matches Ok(res) ==> run_outcome_in(
                *graph,
                *command_policy,
                runtime_context@,
                initial_state@,
                res.state@,
                res.interrupt,
                old(sink).accepts_all(),
                res.metadata.supersteps as int,
            ),
            r matches Ok(res) ==> (old(sink).accepts_all() ==> run_metadata(
                *graph,
                *command_policy,
                runtime_context@,
                initial_state@,
                res.state@,
                initial_versions@,
                res.metadata,
            )),
            r matches Ok(res) ==> (old(sink).accepts_all() && old(sink).records() ==> run_events(
                *graph,
                *command_policy,
                runtime_context@,
                initial_state@,
                old(sink).received(),
                final(sink).received(),
                res.state@,
                metadata_view(res.metadata),
            )),
            r matches Err(e) ==> run_fails(*graph, *command_policy, runtime_context@, initial_state@, e),
    {
        let ghost start = initial_state@.dom();
        let ghost recording = sink.records();
        let ghost base = sink.received();
        let ghost mut stepss: Seq<Seq<NodeStep>> = Seq::empty();
        let ghost s0 = initial_state@;
        let ghost complete = sink.accepts_all();
        let ghost policy = *command_policy;
        let ghost ctx = runtime_context@;
        let mut state = initial_state;
        let mut active = StrSet::new();
        active.insert(graph.entry_point.clone());
        let mut step_count: usize = 0;
        let mut channel_versions = initial_versions.copy_counts();
        let mut versions_seen = initial_versions;
        let mut command_trace: Vec<CommandTraceEvent> = Vec::new();
        let ghost init = versions_seen@;
        proof {
            lemma_versions_through_push(init, Seq::empty(), Seq::empty(), graph.channels@);
        }
        let ghost mut states: Seq<Map<Seq<char>, Value>> = seq![s0];
        let ghost mut actives: Seq<Set<Seq<char>>> = seq![active@];
        proof {
            assert(active@ =~= Set::<Seq<char>>::empty().insert(graph.entry_point@));
        }
        while !active.is_empty()
            invariant
                run_prefix(*graph, policy, ctx, s0, states, actives),
                chain_steps(*graph, policy, ctx, states, actives, stepss),
                channel_versions@ == versions_through(init, stepss, graph.channels@),
                states.len() == step_count + 1,
                trace_views(command_trace@) == steps_trace(stepss),
                recording ==> sink.records() && sink.received() == base + steps_events(stepss, states),
                states.last() == state@,
                actives.last() == active@,
                complete ==> sink.accepts_all(),
                start == initial_state@.dom(),
                start.subset_of(state@.dom()),
                step_count <= MAX_STEPS,
                forall|j: int| 0 <= j < command_trace@.len() ==> (#[trigger] command_trace@[j]).superstep <= step_count,
                init == initial_versions@,
                metadata_ok(
                    *graph,
                    init,
                    ExecutionMetadata {
                        supersteps: step_count,
                        channel_versions,
                        versions_seen,
                        command_trace,
                    },
                ),
            decreases MAX_STEPS - step_count,
        {
            if step_count >= MAX_STEPS {
                return Err(GraphError::DidNotReachFinish(graph.finish_point.clone()));
            }
            step_count = step_count + 1;
            let mut writes: Vec<StatePatch> = Vec::new();
            let mut touched = StrSet::new();
            let mut next_active = StrSet::new();
            let mut interrupted_by: Option<String> = None;
            let n = active.len();
            let ghost mut recs: Seq<NodeStep> = Seq::empty();
            let ghost step_start = state@;
            proof {
                assert(step_patches(recs) =~= writes@);
                assert(next_active@ =~= union_next(recs));
                assert(turns_trace(step_count, recs) =~= Seq::<(Seq<char>, usize, CommandView)>::empty());
                assert(trace_views(command_trace@) =~= steps_trace(stepss) + turns_trace(step_count, recs));
                assert(turns_events(step_count, recs) =~= Seq::<EventView>::empty());
                assert(recording ==> sink.received() =~= base + steps_events(stepss, states) + turns_events(
                    step_count,
                    recs,
                ));
                assert(touched@ =~= crate::state::written_set(writes@));
            }
            let mut i: usize = 0;
            while i < n
                invariant
                    start == initial_state@.dom(),
                    start.subset_of(state@.dom()),
                    n == active.elems().len(),
                    i <= n,
                    1 <= step_count <= MAX_STEPS,
                    forall|j: int| 0 <= j < command_trace@.len() ==> (#[trigger] command_trace@[j]).superstep <= step_count,
                    init == initial_versions@,
                    metadata_ok(
                        *graph,
                        init,
                        ExecutionMetadata {
                            supersteps: step_count,
                            channel_versions,
                            versions_seen,
                            command_trace,
                        },
                    ),
                    interrupted_by matches Some(node) ==> graph.nodes@.contains_key(node@),
                    complete ==> sink.accepts_all(),
                    recs.len() == i,
                    forall|j: int| 0 <= j < i ==> (#[trigger] recs[j]).name == active.elems()[j] && step_ok(
                        *graph,
                        policy,
                        step_start,
                        ctx,
                        recs,
                        j,
                    ),
                    writes@ == step_patches(recs),
                    crate::graph::opt_view(interrupted_by) == first_interrupt(recs),
                    (interrupted_by is None) == quiet_upto(recs, i as int),
                    next_active@ == union_next(recs),
                    recording ==> sink.records() && sink.received() == base + steps_events(stepss, states)
                        + turns_events(step_count, recs),
                    touched@ == crate::state::written_set(writes@),
                    trace_views(command_trace@) == steps_trace(stepss) + turns_trace(step_count, recs),
                decreases n - i,
            {
                let name = active.at(i);
                let ghost prior = base + steps_events(stepss, states) + turns_events(step_count, recs);
                if !sink.emit(StreamEvent::NodeStarted { node: name.clone(), superstep: step_count }) {
                    return Ok(CommandExecutionResult {
                        state,
                        metadata: ExecutionMetadata {
                            supersteps: step_count - 1,
                            channel_versions,
                            versions_seen,
                            command_trace,
                        },
                        interrupt: None,
                    });
                }
                let node = match graph.nodes.get(name.as_str()) {
                    Some(node) => node,
                    None => return Err(GraphError::NodeNotFound(name.clone())),
                };
                let result = match node {
                    GraphNode::Plain(Slot(action)) => match action.run(&state) {
                        Ok(patch) => {
                            let o = NodeOutput::from_patch(patch);
                            proof {
                                assert(node_gives(*graph, name@, step_start, ctx, o));
                            }
                            Ok(o)
                        },
                        Err(reason) => Err(reason),
                    },
                    GraphNode::Runtime(Slot(action)) => action.run(&state, runtime_context),
                };
                let output = match result {
                    Ok(output) => output,
                    Err(reason) => {
                        return Err(GraphError::NodeExecutionFailed { node: name.clone(), reason });
                    },
                };
                let ghost out_g = output;
                proof {
                    assert(node_gives(*graph, name@, step_start, ctx, out_g));
                }
                let NodeOutput { patch, commands } = output;
                let plen = patch.len();
                let ghost touched_before = touched@;
                proof {
                    patch.lemma_keys_dom();
                    assert(patch.key_seq().subrange(0, 0).to_set() =~= Set::<Seq<char>>::empty());
                    assert(touched@ =~= touched_before + patch.key_seq().subrange(0, 0).to_set());
                }
                let mut p: usize = 0;
                while p < plen
                    invariant
                        plen == patch.pairs().len(),
                        plen == patch.key_seq().len(),
                        forall|j: int| 0 <= j < patch.pairs().len() ==> #[trigger] patch.key_seq()[j] == patch.pairs()[j].0@,
                        p <= plen,
                        touched@ == touched_before + patch.key_seq().subrange(0, p as int).to_set(),
                    decreases plen - p,
                {
                    let ghost prefix = patch.key_seq().subrange(0, p as int);
                    touched.insert(patch.key_at(p).clone());
                    proof {
                        assert(patch.key_seq().subrange(0, p + 1) =~= prefix.push(patch.key_seq()[p as int]));
                        prefix.lemma_push_to_set_commute(patch.key_seq()[p as int]);
                        assert(touched@ =~= touched_before + patch.key_seq().subrange(0, p + 1).to_set());
                    }
                    p = p + 1;
                }
                proof {
                    assert(patch.key_seq().subrange(0, plen as int) =~= patch.key_seq());
                }
                let finished_patch = patch.copy_values_map();
                proof {
                    assert(json_map(finished_patch) =~= json_map(patch));
                }
                if !sink.emit(
                    StreamEvent::NodeFinished {
                        node: name.clone(),
                        superstep: step_count,
                        patch: finished_patch,
                    },
                ) {
                    return Ok(CommandExecutionResult {
                        state,
                        metadata: ExecutionMetadata {
                            supersteps: step_count - 1,
                            channel_versions,
                            versions_seen,
                            command_trace,
                        },
                        interrupt: None,
                    });
                }
                let resolved = match resolve_commands(name.as_str(), &commands, command_policy) {
                    Ok(resolved) => resolved,
                    Err(reason) => {
                        proof {
                            assert(commands@ == out_g.commands@);
                            assert(active@.contains(name@));
                            assert(run_prefix(*graph, policy, ctx, s0, states, actives));
                            assert(node_gives(*graph, name@, states.last(), ctx, out_g));
                        }
                        return Err(GraphError::CommandRejected { node: name.clone(), reason });
                    },
                };
                proof {
                    assert(out_g.commands == commands);
                    assert(resolve_ok(
                        commands_view(out_g.commands@),
                        policy,
                        names_view(resolved.goto_targets@),
                        resolved.interrupted,
                    ));
                }
                let ghost started = prior + seq![
                    EventView::NodeStarted(name@, step_count),
                    EventView::NodeFinished(name@, step_count, json_map(patch)),
                ];
                proof {
                    let before_w = writes@;
                    assert(crate::state::written_set(before_w.push(patch)) =~= crate::state::written_set(before_w)
                        + patch@.dom()) by {
                        crate::state::lemma_written_step(before_w.push(patch), before_w.len() as int);
                        assert(before_w.push(patch).subrange(0, (before_w.len() + 1) as int) =~= before_w.push(patch));
                        assert(before_w.push(patch).subrange(0, before_w.len() as int) =~= before_w);
                    }
                    assert(patch.key_seq().to_set() =~= patch@.dom());
                    assert(recording ==> sink.received() =~= started + commands_view(commands@).subrange(0, 0).map_values(
                        |cv: CommandView| EventView::CommandEmitted(name@, step_count, cv),
                    ));
                }
                writes.push(patch);
                let mut c: usize = 0;
                let ghost trace_before = trace_views(command_trace@);
                proof {
                    assert(trace_views(command_trace@) =~= trace_before + commands_view(commands@).subrange(0, 0).map_values(
                        |cv: CommandView| (name@, step_count, cv),
                    ));
                }
                while c < commands.len()
                    invariant
                        trace_views(command_trace@) == trace_before + commands_view(commands@).subrange(0, c as int).map_values(
                            |cv: CommandView| (name@, step_count, cv),
                        ),
                        recording ==> sink.records() && sink.received() == started + commands_view(commands@).subrange(
                            0,
                            c as int,
                        ).map_values(|cv: CommandView| EventView::CommandEmitted(name@, step_count, cv)),
                        complete ==> sink.accepts_all(),
                        start == initial_state@.dom(),
                        start.subset_of(state@.dom()),
                        c <= commands@.len(),
                        1 <= step_count <= MAX_STEPS,
                        forall|j: int| 0 <= j < command_trace@.len() ==> (#[trigger] command_trace@[j]).superstep <= step_count,
                        graph.nodes@.contains_key(name@),
                        init == initial_versions@,
                        metadata_ok(
                            *graph,
                            init,
                            ExecutionMetadata {
                                supersteps: step_count,
                                channel_versions,
                                versions_seen,
                                command_trace,
                            },
                        ),
                    decreases commands@.len() - c,
                {
                    let ghost trace_prev = command_trace@;
                    command_trace.push(
                        CommandTraceEvent {
                            node: name.clone(),
                            superstep: step_count,
                            command: commands[c].copy(),
                        },
                    );
                    proof {
                        assert(trace_views(command_trace@) =~= trace_views(trace_prev).push(
                            (name@, step_count, commands@[c as int]@),
                        ));
                        assert(commands_view(commands@).subrange(0, c + 1).map_values(
                            |cv: CommandView| (name@, step_count, cv),
                        ) =~= commands_view(commands@).subrange(0, c as int).map_values(
                            |cv: CommandView| (name@, step_count, cv),
                        ).push((name@, step_count, commands@[c as int]@)));
                    }
                    let ghost cmds_before = commands_view(commands@).subrange(0, c as int).map_values(
                        |cv: CommandView| EventView::CommandEmitted(name@, step_count, cv),
                    );
                    proof {
                        assert(commands_view(commands@).subrange(0, c + 1).map_values(
                            |cv: CommandView| EventView::CommandEmitted(name@, step_count, cv),
                        ) =~= cmds_before.push(EventView::CommandEmitted(name@, step_count, commands@[c as int]@)));
                    }
                    if !sink.emit(
                        StreamEvent::CommandEmitted {
                            node: name.clone(),
                            superstep: step_count,
                            command: commands[c].copy(),
                        },
                    ) {
                        return Ok(CommandExecutionResult {
                            state,
                            metadata: ExecutionMetadata {
                                supersteps: step_count - 1,
                                channel_versions,
                                versions_seen,
                                command_trace,
                            },
                            interrupt: None,
                        });
                    }
                    c = c + 1;
                }
                let ghost was_quiet = interrupted_by is None;
                if resolved.interrupted && interrupted_by.is_none() {
                    interrupted_by = Some(name.clone());
                }
                let ghost rg_int = resolved.interrupted;
                let ghost rg_targets = names_view(resolved.goto_targets@);
                let ghost mut next: Set<Seq<char>> = Set::empty();
                let ghost before_next = next_active@;
                if interrupted_by.is_none() {
                    match route_node(graph, name, &state, runtime_context, resolved.goto_targets, &mut next_active) {
                        Ok(g) => {
                            proof {
                                next = g@;
                            }
                        },
                        Err(e) => {
                            return Err(e);
                        },
                    }
                }
                proof {
                    let rec = NodeStep {
                        name: name@,
                        output: out_g,
                        interrupted: rg_int,
                        targets: rg_targets,
                        next: next,
                    };
                    assert(commands_view(commands@).subrange(0, commands@.len() as int) =~= commands_view(commands@));
                    assert(if quiet_upto(recs, i as int) && !rg_int {
                        route_ok(*graph, step_start, ctx, name@, rg_targets, next)
                    } else {
                        next == Set::<Seq<char>>::empty()
                    });
                    lemma_push_turn(*graph, policy, step_start, ctx, recs, rec, active.elems(), i as int, step_count);
                    recs = recs.push(rec);
                    assert(step_patches(recs) =~= writes@);
                    assert(next_active@ =~= union_next(recs));
                }
                i = i + 1;
            }
            let ghost cv_before = channel_versions@;
            let ghost state_before = state@;
            let ghost writes_ghost = writes@;
            proof {
                lemma_versions_step(cv_before, crate::state::written_channels(writes@, graph.channels@));
            }
            match apply_writes_with_versions(
                &mut state,
                writes,
                &graph.reducers,
                &graph.channels,
                &mut channel_versions,
                &mut versions_seen,
            ) {
                Ok(()) => {},
                Err(e) => {
                    proof {
                        active.lemma_elems();
                        active.lemma_sorted();
                        assert(active.elems().to_set() =~= active@) by {
                            assert forall|k: Seq<char>| active.elems().to_set().contains(k) implies active@.contains(k) by {
                                let j = choose|j: int| 0 <= j < active.elems().len() && active.elems()[j] == k;
                            }
                        }
                        assert(step_names(recs) =~= active.elems());
                        assert(ascending(step_names(recs)));
                        assert(step_names(recs).to_set() == actives.last());
                        assert(run_prefix(*graph, policy, ctx, s0, states, actives));
                        assert(forall|j: int|
                            0 <= j < recs.len() ==> #[trigger] step_ok(*graph, policy, states.last(), ctx, recs, j));
                    }
                    return Err(e);
                },
            }
            proof {
                assert forall|k: Seq<char>| start.contains(k) implies #[trigger] state@.contains_key(k) by {
                    if !crate::state::written(writes_ghost, k) {
                        assert(state_before.contains_key(k));
                    }
                }
                assert forall|k: Seq<char>| #[trigger] channel_versions@.contains_key(k) implies init.contains_key(k)
                    || graph.channels@.contains_key(k) by {
                    if !cv_before.contains_key(k) {
                        assert(crate::state::written_channels(writes@, graph.channels@).contains(k));
                    }
                }
                assert forall|k: Seq<char>| #[trigger] init.contains_key(k) implies channel_versions@.contains_key(k)
                    && channel_versions@[k] >= init[k] by {
                    assert(cv_before.contains_key(k));
                }
                active.lemma_elems();
                active.lemma_sorted();
                assert(active.elems().to_set() =~= active@) by {
                    assert forall|k: Seq<char>| active.elems().to_set().contains(k) implies active@.contains(k) by {
                        let j = choose|j: int| 0 <= j < active.elems().len() && active.elems()[j] == k;
                    }
                }
                assert(ascending(active.elems()));
                assert(superstep_by(
                    *graph,
                    policy,
                    ctx,
                    step_start,
                    active.elems(),
                    recs,
                    state@,
                    next_active@,
                    crate::graph::opt_view(interrupted_by),
                ));
                assert(superstep(
                    *graph,
                    policy,
                    ctx,
                    states.last(),
                    actives.last(),
                    state@,
                    next_active@,
                    crate::graph::opt_view(interrupted_by),
                ));
            }
            proof {
                assert(step_names(recs) =~= active.elems());
            }
            let chunk = chunk_of(&touched, &state);
            proof {
                assert forall|k: Seq<char>| touched@.contains(k) == written(step_patches(recs), k) by {}
                assert(json_map(chunk) =~= chunk_map(state@, recs));
                assert(recording ==> sink.received() =~= base + steps_events(stepss, states) + turns_events(
                    step_count,
                    recs,
                ));
            }
            let ghost chunk_view = json_map(chunk);
            if chunk.is_empty() {
                proof {
                    assert(chunk_map(state@, recs).dom() =~= Set::<Seq<char>>::empty());
                    assert(recording ==> sink.received() =~= base + steps_events(stepss, states) + step_events(
                        step_count,
                        recs,
                        state@,
                    ));
                }
            } else {
                proof {
                    assert(chunk_map(state@, recs).dom() != Set::<Seq<char>>::empty()) by {
                        let k = chunk@.dom().choose();
                        if chunk@.dom() =~= Set::<Seq<char>>::empty() {
                        } else {
                            assert(chunk_map(state@, recs).dom().contains(k));
                        }
                    }
                }
                if !sink.emit(StreamEvent::StateChunk { superstep: step_count, chunk }) {
                    return Ok(CommandExecutionResult {
                        state,
                        metadata: ExecutionMetadata {
                            supersteps: step_count,
                            channel_versions,
                            versions_seen,
                            command_trace,
                        },
                        interrupt: None,
                    });
                }
                proof {
                    assert(recording ==> sink.received() =~= base + steps_events(stepss, states) + step_events(
                        step_count,
                        recs,
                        state@,
                    ));
                }
            }
            let ghost step_after = state@;
            let ghost received_step = base + steps_events(stepss, states) + step_events(step_count, recs, state@);
            match interrupted_by {
                Some(node) => {
                    let _ = sink.emit(StreamEvent::Interrupted { node: node.clone(), superstep: step_count });
                    let result = CommandExecutionResult {
                        state,
                        metadata: ExecutionMetadata {
                            supersteps: step_count,
                            channel_versions,
                            versions_seen,
                            command_trace,
                        },
                        interrupt: Some(InterruptSignal { node, superstep: step_count }),
                    };
                    let final_state = result.state.copy_values_map();
                    proof {
                        assert(json_map(final_state) =~= step_after.map_values(|v: Value| v@));
                    }
                    let _ = sink.emit(
                        StreamEvent::Completed {
                            state: final_state,
                            metadata: copy_metadata(&result.metadata),
                            interrupt: copy_signal(&result.interrupt),
                        },
                    );
                    proof {
                        assert(recording ==> sink.received() =~= received_step + ending_events(
                            step_count,
                            step_after,
                            crate::graph::opt_view(interrupted_by),
                            metadata_view(result.metadata),
                        ));
                        assert(states.len() as usize == step_count);
                        assert(ascending(step_names(recs)));
                        assert(superstep_by(
                            *graph,
                            policy,
                            ctx,
                            states.last(),
                            step_names(recs),
                            recs,
                            step_after,
                            next_active@,
                            crate::graph::opt_view(interrupted_by),
                        ));
                        lemma_run_metadata(
                            *graph,
                            policy,
                            ctx,
                            s0,
                            states,
                            actives,
                            stepss,
                            recs,
                            step_after,
                            next_active@,
                            crate::graph::opt_view(interrupted_by),
                            init,
                            result.metadata,
                        );
                        if recording {
                            lemma_run_events(
                                *graph,
                                policy,
                                ctx,
                                s0,
                                states,
                                actives,
                                stepss,
                                recs,
                                step_after,
                                next_active@,
                                crate::graph::opt_view(interrupted_by),
                                base,
                                sink.received(),
                                metadata_view(result.metadata),
                            );
                        }
                    }
                    return Ok(result);
                },
                None => {},
            }
            if active.contains(graph.finish_point.as_str()) && next_active.is_empty() {
                let result = CommandExecutionResult {
                    state,
                    metadata: ExecutionMetadata {
                        supersteps: step_count,
                        channel_versions,
                        versions_seen,
                        command_trace,
                    },
                    interrupt: None,
                };
                let final_state = result.state.copy_values_map();
                proof {
                    assert(json_map(final_state) =~= step_after.map_values(|v: Value| v@));
                }
                let _ = sink.emit(
                    StreamEvent::Completed {
                        state: final_state,
                        metadata: copy_metadata(&result.metadata),
                        interrupt: None,
                    },
                );
                proof {
                    assert(recording ==> sink.received() =~= received_step + ending_events(
                        step_count,
                        step_after,
                        None,
                        metadata_view(result.metadata),
                    ));
                    assert(states.len() as usize == step_count);
                    assert(ascending(step_names(recs)));
                    assert(superstep_by(
                        *graph,
                        policy,
                        ctx,
                        states.last(),
                        step_names(recs),
                        recs,
                        step_after,
                        next_active@,
                        None,
                    ));
                    lemma_run_metadata(
                        *graph,
                        policy,
                        ctx,
                        s0,
                        states,
                        actives,
                        stepss,
                        recs,
                        step_after,
                        next_active@,
                        None,
                        init,
                        result.metadata,
                    );
                    if recording {
                        lemma_run_events(
                            *graph,
                            policy,
                            ctx,
                            s0,
                            states,
                            actives,
                            stepss,
                            recs,
                            step_after,
                            next_active@,
                            None,
                            base,
                            sink.received(),
                            metadata_view(result.metadata),
                        );
                    }
                }
                return Ok(result);
            }
            proof {
                assert(!(actives.last().contains(graph.finish_point@) && next_active@ == Set::<Seq<char>>::empty()));
                lemma_extend_run(*graph, policy, ctx, s0, states, actives, stepss, recs, state@, next_active@);
                lemma_steps_events_push(stepss, states, recs, state@);
                assert(stepss.push(recs).drop_last() =~= stepss);
                assert(steps_trace(stepss.push(recs)) =~= steps_trace(stepss) + turns_trace(step_count, recs));
                lemma_versions_through_push(init, stepss, recs, graph.channels@);
                states = states.push(state@);
                actives = actives.push(next_active@);
                stepss = stepss.push(recs);
            }
            active = next_active;
        }
        Err(GraphError::DidNotReachFinish(graph.finish_point.clone()))
    }
}

impl SequentialExecutor {
    /// Runs `graph` with a runtime context, starting versions and a command policy.
    pub fn invoke_with_runtime_context_and_policy(
        &self,
        graph: &CompiledGraph,
        state: State,
        runtime_context: RuntimeContext,
        initial_versions: VersionMap,
        command_policy: &CommandPolicy,
    ) -> (r: Result<CommandExecutionResult, GraphError>)
        ensures
            r matches Ok(res) ==> run_trace(
                *graph,
                *command_policy,
                runtime_context@,
                state@,
                res.state@,
                trace_views(res.metadata.command_trace@),
            ),
            r matches Ok(res) ==> run_metadata(
                *graph,
                *command_policy,
                runtime_context@,
                state@,
                res.state@,
                initial_versions@,
                res.metadata,
            ),
            r matches Ok(res) ==> run_outcome(
                *graph,
                *command_policy,
                runtime_context@,
                state@,
                res.state@,
                res.interrupt,
                true,
            ),
            r matches Ok(res) ==> run_outcome_in(
                *graph,
                *command_policy,
                runtime_context@,
                state@,
                res.state@,
                res.interrupt,
                true,
                res.metadata.supersteps as int,
            ),
            r matches Ok(res) ==> state@.dom().subset_of(res.state@.dom()),
            r matches Ok(res) ==> metadata_ok(*graph, initial_versions@, res.metadata) && interrupt_ok(
                *graph,
                res.metadata,
                res.interrupt,
            ),
            r matches Err(e) ==> run_fails(*graph, *command_policy, runtime_context@, state@, e),
    {
        let mut sink = DiscardSink;
        let ghost start = state@;
        let ghost init = initial_versions@;
        let r = self.run_with_sink(graph, state, &runtime_context, initial_versions, command_policy, &mut sink);
        proof {
            if r is Ok {
                lemma_metadata_trace(*graph, *command_policy, runtime_context@, start, r->Ok_0.state@, init, r->Ok_0.metadata);
            }
        }
        r
    }

    /// Runs `graph` with a runtime context and starting versions, under the default policy.
    pub fn invoke_with_runtime_context_from_versions(
        &self,
        graph: &CompiledGraph,
        state: State,
        runtime_context: RuntimeContext,
        initial_versions: VersionMap,
    ) -> (r: Result<CommandExecutionResult, GraphError>)
        ensures
            r matches Ok(res) ==> run_trace(
                *graph,
                default_policy(),
                runtime_context@,
                state@,
                res.state@,
                trace_views(res.metadata.command_trace@),
            ),
            r matches Ok(res) ==> run_metadata(
                *graph,
                default_policy(),
                runtime_context@,
                state@,
                res.state@,
                initial_versions@,
                res.metadata,
            ),
            r matches Ok(res) ==> run_outcome(
                *graph,
                default_policy(),
                runtime_context@,
                state@,
                res.state@,
                res.interrupt,
                true,
            ),
            r matches Ok(res) ==> run_outcome_in(
                *graph,
                default_policy(),
                runtime_context@,
                state@,
                res.state@,
                res.interrupt,
                true,
                res.metadata.supersteps as int,
            ),
            r matches Ok(res) ==> state@.dom().subset_of(res.state@.dom()),
            r matches Ok(res) ==> metadata_ok(*graph, initial_versions@, res.metadata) && interrupt_ok(
                *graph,
                res.metadata,
                res.interrupt,
            ),
            r matches Err(e) ==> run_fails(*graph, default_policy(), runtime_context@, state@, e),
    {
        let policy = CommandPolicy::default();
        self.invoke_with_runtime_context_and_policy(graph, state, runtime_context, initial_versions, &policy)
    }

    /// Runs `graph` with a runtime context, under the default policy.
    pub fn invoke_with_runtime_context(
        &self,
        graph: &CompiledGraph,
        state: State,
        runtime_context: RuntimeContext,
    ) -> (r: Result<CommandExecutionResult, GraphError>)
        ensures
            r matches Ok(res) ==> run_trace(
                *graph,
                default_policy(),
                runtime_context@,
                state@,
                res.state@,
                trace_views(res.metadata.command_trace@),
            ),
            r matches Ok(res) ==> run_metadata(
                *graph,
                default_policy(),
                runtime_context@,
                state@,
                res.state@,
                Map::empty(),
                res.metadata,
            ),
            r matches Ok(res) ==> run_outcome(
                *graph,
                default_policy(),
                runtime_context@,
                state@,
                res.state@,
                res.interrupt,
                true,
            ),
            r matches Ok(res) ==> run_outcome_in(
                *graph,
                default_policy(),
                runtime_context@,
                state@,
                res.state@,
                res.interrupt,
                true,
                res.metadata.supersteps as int,
            ),
            r matches Ok(res) ==> state@.dom().subset_of(res.state@.dom()),
            r matches Ok(res) ==> metadata_ok(*graph, Map::empty(), res.metadata) && interrupt_ok(
                *graph,
                res.metadata,
                res.interrupt,
            ),
            r matches Err(e) ==> run_fails(*graph, default_policy(), runtime_context@, state@, e),
    {
        let versions = StrMap::new();
        self.invoke_with_runtime_context_from_versions(graph, state, runtime_context, versions)
    }

    /// Runs `graph` from starting versions; an interrupt is an error.
    pub fn invoke_with_metadata_from_versions(
        &self,
        graph: &CompiledGraph,
        state: State,
        initial_versions: VersionMap,
    ) -> (r: Result<ExecutionResult, GraphError>)
        ensures
            r matches Ok(res) ==> run_trace(
                *graph,
                default_policy(),
                Map::empty(),
                state@,
                res.state@,
                trace_views(res.metadata.command_trace@),
            ),
            r matches Ok(res) ==> run_metadata(
                *graph,
                default_policy(),
                Map::empty(),
                state@,
                res.state@,
                initial_versions@,
                res.metadata,
            ),
            r matches Ok(res) ==> run_outcome(
                *graph,
                default_policy(),
                Map::empty(),
                state@,
                res.state@,
                None,
                true,
            ),
            r matches Ok(res) ==> run_outcome_in(
                *graph,
                default_policy(),
                Map::empty(),
                state@,
                res.state@,
                None,
                true,
                res.metadata.supersteps as int,
            ),
            r matches Ok(res) ==> state@.dom().subset_of(res.state@.dom()),
            r matches Ok(res) ==> metadata_ok(*graph, initial_versions@, res.metadata),
            r matches Err(e) ==> run_fails(*graph, default_policy(), Map::empty(), state@, e) || (e matches GraphError::Interrupted { node }
                && run_interrupts(*graph, default_policy(), Map::empty(), state@, node@)),
    {
        let command_result = self.invoke_with_runtime_context_from_versions(
            graph,
            state,
            StrMap::new(),
            initial_versions,
        )?;
        match command_result.interrupt {
            Some(interrupt) => Err(GraphError::Interrupted { node: interrupt.node }),
            None => Ok(ExecutionResult { state: command_result.state, metadata: command_result.metadata }),
        }
    }

    /// Runs `graph`; an interrupt is an error.
    pub fn invoke_with_metadata(&self, graph: &CompiledGraph, state: State) -> (r: Result<
        ExecutionResult,
        GraphError,
    >)
        ensures
            r matches Ok(res) ==> run_trace(
                *graph,
                default_policy(),
                Map::empty(),
                state@,
                res.state@,
                trace_views(res.metadata.command_trace@),
            ),
            r matches Ok(res) ==> run_metadata(
                *graph,
                default_policy(),
                Map::empty(),
                state@,
                res.state@,
                Map::empty(),
                res.metadata,
            ),
            r matches Ok(res) ==> run_outcome(
                *graph,
                default_policy(),
                Map::empty(),
                state@,
                res.state@,
                None,
                true,
            ),
            r matches Ok(res) ==> run_outcome_in(
                *graph,
                default_policy(),
                Map::empty(),
                state@,
                res.state@,
                None,
                true,
                res.metadata.supersteps as int,
            ),
            r matches Ok(res) ==> state@.dom().subset_of(res.state@.dom()),
            r matches Ok(res) ==> metadata_ok(*graph, Map::empty(), res.metadata),
            r matches Err(e) ==> run_fails(*graph, default_policy(), Map::empty(), state@, e) || (e matches GraphError::Interrupted { node }
                && run_interrupts(*graph, default_policy(), Map::empty(), state@, node@)),
    {
        self.invoke_with_metadata_from_versions(graph, state, StrMap::new())
    }

    /// Runs `graph` and returns the final state; an interrupt is an error.
    pub fn invoke(&self, graph: &CompiledGraph, state: State) -> (r: Result<State, GraphError>)
        ensures
            r matches Ok(s) ==> run_outcome(*graph, default_policy(), Map::empty(), state@, s@, None, true),
            r matches Ok(s) ==> state@.dom().subset_of(s@.dom()),
            r matches Err(e) ==> run_fails(*graph, default_policy(), Map::empty(), state@, e) || (e matches GraphError::Interrupted { node }
                && run_interrupts(*graph, default_policy(), Map::empty(), state@, node@)),
    {
        let result = self.invoke_with_metadata(graph, state)?;
        Ok(result.state)
    }

    /// Runs `graph` and collects every event of the run.
    pub fn stream_with_runtime_context_and_policy(
        &self,
        graph: &CompiledGraph,
        state: State,
        runtime_context: RuntimeContext,
        initial_versions: VersionMap,
        command_policy: &CommandPolicy,
    ) -> (r: Result<StreamExecutionResult, GraphError>)
        ensures
            r matches Ok(res) ==> run_trace(
                *graph,
                *command_policy,
                runtime_context@,
                state@,
                res.state@,
                trace_views(res.metadata.command_trace@),
            ),
            r matches Ok(res) ==> run_metadata(
                *graph,
                *command_policy,
                runtime_context@,
                state@,
                res.state@,
                initial_versions@,
                res.metadata,
            ),
            r matches Ok(res) ==> run_events(
                *graph,
                *command_policy,
                runtime_context@,
                state@,
                Seq::empty(),
                res.events@.map_values(|e: StreamEvent| event_view(e)),
                res.state@,
                metadata_view(res.metadata),
            ),
            r matches Ok(res) ==> run_outcome(
                *graph,
                *command_policy,
                runtime_context@,
                state@,
                res.state@,
                res.interrupt,
                true,
            ),
            r matches Ok(res) ==> run_outcome_in(
                *graph,
                *command_policy,
                runtime_context@,
                state@,
                res.state@,
                res.interrupt,
                true,
                res.metadata.supersteps as int,
            ),
            r matches Ok(res) ==> metadata_ok(*graph, initial_versions@, res.metadata) && interrupt_ok(
                *graph,
                res.metadata,
                res.interrupt,
            ),
            r matches Err(e) ==> run_fails(*graph, *command_policy, runtime_context@, state@, e),
    {
        let mut sink = CollectSink { events: Vec::new() };
        proof {
            assert(sink.received() =~= Seq::<EventView>::empty());
        }
        let ghost start = state@;
        let ghost init = initial_versions@;
        let execution = self.run_with_sink(
            graph,
            state,
            &runtime_context,
            initial_versions,
            command_policy,
            &mut sink,
        )?;
        proof {
            lemma_metadata_trace(*graph, *command_policy, runtime_context@, start, execution.state@, init, execution.metadata);
        }
        Ok(StreamExecutionResult {
            state: execution.state,
            metadata: execution.metadata,
            interrupt: execution.interrupt,
            events: sink.events,
        })
    }

    /// Runs `graph` with a runtime context under the default policy and
    /// collects every event of the run.
    pub fn stream_with_runtime_context(
        &self,
        graph: &CompiledGraph,
        state: State,
        runtime_context: RuntimeContext,
    ) -> (r: Result<StreamExecutionResult, GraphError>)
        ensures
            r matches Ok(res) ==> run_trace(
                *graph,
                default_policy(),
                runtime_context@,
                state@,
                res.state@,
                trace_views(res.metadata.command_trace@),
            ),
            r matches Ok(res) ==> run_metadata(
                *graph,
                default_policy(),
                runtime_context@,
                state@,
                res.state@,
                Map::empty(),
                res.metadata,
            ),
            r matches Ok(res) ==> run_events(
                *graph,
                default_policy(),
                runtime_context@,
                state@,
                Seq::empty(),
                res.events@.map_values(|e: StreamEvent| event_view(e)),
                res.state@,
                metadata_view(res.metadata),
            ),
            r matches Ok(res) ==> run_outcome(
                *graph,
                default_policy(),
                runtime_context@,
                state@,
                res.state@,
                res.interrupt,
                true,
            ),
            r matches Ok(res) ==> run_outcome_in(
                *graph,
                default_policy(),
                runtime_context@,
                state@,
                res.state@,
                res.interrupt,
                true,
                res.metadata.supersteps as int,
            ),
            r matches Ok(res) ==> metadata_ok(*graph, Map::empty(), res.metadata) && interrupt_ok(
                *graph,
                res.metadata,
                res.interrupt,
            ),
            r matches Err(e) ==> run_fails(*graph, default_policy(), runtime_context@, state@, e),
    {
        let policy = CommandPolicy::default();
        self.stream_with_runtime_context_and_policy(graph, state, runtime_context, StrMap::new(), &policy)
    }
}

} // verus!
