//! Building a state graph and compiling it into a checked, executable form.
use vstd::prelude::*;
use crate::channel::{ChannelEntry, ChannelRef, Slot};
use crate::error::{GraphError, GraphErrorView};
use crate::json::{StrMap, StrSet, Value};
use crate::runtime::{names_view, NodeOutput, RuntimeContext};
use crate::state::{ReducerEntry, ReducerFn, State, StatePatch};
use crate::text::{owned, str_eq};

verus! {

/// A node that reads the state and returns a patch.
pub trait StateNodeFn {
    /// Whether `r` may be what the node gives on a state with contents
    /// `state`.  A node that does not say more promises nothing.
    open spec fn yields(&self, state: Map<Seq<char>, Value>, r: Result<StatePatch, String>) -> bool {
        true
    }

    fn run(&self, state: &State) -> (r: Result<StatePatch, String>)
        ensures
            self.yields(state@, r),
    ;
}

/// A node that also reads the runtime context and may emit commands.
pub trait RuntimeNodeFn {
    /// Whether `r` may be what the node gives on `state` in `context`.  A
    /// node that does not say more promises nothing.
    open spec fn outputs(&self, state: Map<Seq<char>, Value>, context: Map<Seq<char>, Value>, r: Result<NodeOutput, String>) -> bool {
        true
    }

    fn run(&self, state: &State, runtime_context: &RuntimeContext) -> (r: Result<NodeOutput, String>)
        ensures
            self.outputs(state@, runtime_context@, r),
    ;
}

/// Chooses the nodes to run after a node with conditional edges.
pub trait RouteFn {
    /// Whether `r` may be the router's choice on `state` in `context`.  A
    /// router that does not say more promises nothing.
    open spec fn routes(&self, state: Map<Seq<char>, Value>, context: Map<Seq<char>, Value>, r: Result<Vec<String>, String>) -> bool {
        true
    }

    fn route(&self, state: &State, runtime_context: &RuntimeContext) -> (r: Result<Vec<String>, String>)
        ensures
            self.routes(state@, runtime_context@, r),
    ;
}

pub type NodeAction = Box<dyn StateNodeFn>;

pub type RuntimeNodeAction = Box<dyn RuntimeNodeFn>;

pub type ConditionalRouteFn = Box<dyn RouteFn>;

/// The action of a node.
pub enum GraphNode {
    Plain(Slot<NodeAction>),
    Runtime(Slot<RuntimeNodeAction>),
}

/// The targets a router may choose, and the router.
pub struct Routed<R> {
    pub targets: Vec<String>,
    pub router: R,
}

/// A conditional edge, as a graph stores it.
pub type ConditionalEdge = Routed<ConditionalRouteFn>;

/// A graph under construction.
pub struct StateGraph {
    nodes: StrMap<GraphNode>,
    edges: Vec<(String, String)>,
    conditional_edges: Vec<(String, ConditionalEdge)>,
    reducers: StrMap<ReducerEntry>,
    channels: StrMap<ChannelEntry>,
    entry_point: Option<String>,
    finish_point: Option<String>,
}

/// An edge by the characters of its endpoints.
pub type EdgeView = (Seq<char>, Seq<char>);

/// A conditional edge by its source and the characters of its targets.
pub type CondView = (Seq<char>, Seq<Seq<char>>);

pub open spec fn opt_view(o: Option<String>) -> Option<Seq<char>> {
    match o {
        Some(s) => Some(s@),
        None => None,
    }
}

/// Whether `u -> v` is a plain edge or a declared conditional target.
pub open spec fn has_edge(edges: Seq<EdgeView>, conds: Seq<CondView>, u: Seq<char>, v: Seq<char>) -> bool {
    (exists|i: int| 0 <= i < edges.len() && #[trigger] edges[i] == (u, v)) || (exists|c: int|
        0 <= c < conds.len() && (#[trigger] conds[c]).0 == u && conds[c].1.contains(v))
}

/// A walk along edges.
pub open spec fn is_path(edges: Seq<EdgeView>, conds: Seq<CondView>, p: Seq<Seq<char>>) -> bool {
    &&& p.len() >= 1
    &&& forall|i: int| 0 <= i < p.len() - 1 ==> has_edge(edges, conds, #[trigger] p[i], p[i + 1])
}

/// Whether `b` can be reached from `a`.
pub open spec fn reachable(edges: Seq<EdgeView>, conds: Seq<CondView>, a: Seq<char>, b: Seq<char>) -> bool {
    exists|p: Seq<Seq<char>>| is_path(edges, conds, p) && p[0] == a && p.last() == b
}

/// Index of the first edge at or after `i` with an endpoint that is not a node.
pub open spec fn first_bad_edge(edges: Seq<EdgeView>, nodes: Set<Seq<char>>, i: int) -> Option<int>
    decreases edges.len() - i,
{
    if i < 0 || i >= edges.len() {
        None
    } else if !(nodes.contains(edges[i].0) && nodes.contains(edges[i].1)) {
        Some(i)
    } else {
        first_bad_edge(edges, nodes, i + 1)
    }
}

/// Index of the first target at or after `k` that is not a node.
pub open spec fn first_bad_target(targets: Seq<Seq<char>>, nodes: Set<Seq<char>>, k: int) -> Option<int>
    decreases targets.len() - k,
{
    if k < 0 || k >= targets.len() {
        None
    } else if !nodes.contains(targets[k]) {
        Some(k)
    } else {
        first_bad_target(targets, nodes, k + 1)
    }
}

/// The fault of the `i`-th conditional edge, if it has one.
pub open spec fn cond_fault(conds: Seq<CondView>, nodes: Set<Seq<char>>, i: int) -> Option<GraphErrorView> {
    let src = conds[i].0;
    if !nodes.contains(src) {
        Some(GraphErrorView::InvalidConditionalSource(src))
    } else if exists|j: int| 0 <= j < i && (#[trigger] conds[j]).0 == src {
        Some(GraphErrorView::DuplicateConditionalSource(src))
    } else {
        match first_bad_target(conds[i].1, nodes, 0) {
            Some(k) => Some(GraphErrorView::InvalidConditionalTarget { from: src, to: conds[i].1[k] }),
            None => None,
        }
    }
}

/// The fault of the first faulty conditional edge at or after `i`.
pub open spec fn first_cond_fault(conds: Seq<CondView>, nodes: Set<Seq<char>>, i: int) -> Option<GraphErrorView>
    decreases conds.len() - i,
{
    if i < 0 || i >= conds.len() {
        None
    } else {
        match cond_fault(conds, nodes, i) {
            Some(e) => Some(e),
            None => first_cond_fault(conds, nodes, i + 1),
        }
    }
}

/// Whether `n` is the source of an edge or of a conditional edge.
pub open spec fn has_outgoing(edges: Seq<EdgeView>, conds: Seq<CondView>, n: Seq<char>) -> bool {
    (exists|i: int| 0 <= i < edges.len() && (#[trigger] edges[i]).0 == n) || (exists|c: int|
        0 <= c < conds.len() && (#[trigger] conds[c]).0 == n)
}

/// What compiling a graph with these parts gives: the first failed check,
/// or `None` when it compiles.
pub open spec fn compile_verdict(
    nodes: Set<Seq<char>>,
    edges: Seq<EdgeView>,
    conds: Seq<CondView>,
    entry: Option<Seq<char>>,
    finish: Option<Seq<char>>,
) -> Option<GraphErrorView> {
    match (entry, finish) {
        (None, _) => Some(GraphErrorView::MissingEntryPoint),
        (_, None) => Some(GraphErrorView::MissingFinishPoint),
        (Some(e), Some(f)) => if !nodes.contains(e) {
            Some(GraphErrorView::NodeNotFound(e))
        } else if !nodes.contains(f) {
            Some(GraphErrorView::NodeNotFound(f))
        } else {
            match first_bad_edge(edges, nodes, 0) {
                Some(i) => Some(GraphErrorView::InvalidEdge { from: edges[i].0, to: edges[i].1 }),
                None => match first_cond_fault(conds, nodes, 0) {
                    Some(err) => Some(err),
                    None => if has_outgoing(edges, conds, f) {
                        Some(GraphErrorView::FinishHasOutgoingEdges(f))
                    } else if !reachable(edges, conds, e, f) {
                        Some(GraphErrorView::DidNotReachFinish(f))
                    } else {
                        None
                    },
                },
            }
        },
    }
}

/// The targets of the edges leaving `u`, in the order the edges were added.
pub open spec fn edge_targets(edges: Seq<EdgeView>, u: Seq<char>) -> Seq<Seq<char>>
    decreases edges.len(),
{
    if edges.len() == 0 {
        Seq::empty()
    } else {
        let rest = edge_targets(edges.drop_last(), u);
        if edges.last().0 == u {
            rest.push(edges.last().1)
        } else {
            rest
        }
    }
}

impl StateGraph {
    /// The nodes, by name.
    pub closed spec fn node_map(self) -> Map<Seq<char>, GraphNode> {
        self.nodes@
    }

    pub open spec fn node_names(self) -> Set<Seq<char>> {
        self.node_map().dom()
    }

    /// The conditional edges, in the order they were added.
    pub closed spec fn cond_edges(self) -> Seq<ConditionalEdge> {
        self.conditional_edges@.map_values(|c: (String, ConditionalEdge)| c.1)
    }

    /// The reducers, by field.
    pub closed spec fn reducer_map(self) -> Map<Seq<char>, ReducerEntry> {
        self.reducers@
    }

    /// The channels, by field.
    pub closed spec fn channel_map(self) -> Map<Seq<char>, ChannelEntry> {
        self.channels@
    }

    pub closed spec fn edge_list(self) -> Seq<EdgeView> {
        self.edges@.map_values(|e: (String, String)| (e.0@, e.1@))
    }

    pub closed spec fn cond_list(self) -> Seq<CondView> {
        self.conditional_edges@.map_values(|c: (String, ConditionalEdge)| (c.0@, names_view(c.1.targets@)))
    }

    pub closed spec fn entry(self) -> Option<Seq<char>> {
        opt_view(self.entry_point)
    }

    pub closed spec fn finish(self) -> Option<Seq<char>> {
        opt_view(self.finish_point)
    }

    pub open spec fn reducer_fields(self) -> Set<Seq<char>> {
        self.reducer_map().dom()
    }

    pub open spec fn channel_fields(self) -> Set<Seq<char>> {
        self.channel_map().dom()
    }

    /// An empty graph.
    pub fn new() -> (g: Self)
        ensures
            g.node_names() == Set::<Seq<char>>::empty(),
            g.edge_list().len() == 0,
            g.cond_list().len() == 0,
            g.cond_edges().len() == 0,
            g.entry() is None,
            g.finish() is None,
            g.reducer_fields() == Set::<Seq<char>>::empty(),
            g.channel_fields() == Set::<Seq<char>>::empty(),
    {
        StateGraph {
            nodes: StrMap::new(),
            edges: Vec::new(),
            conditional_edges: Vec::new(),
            reducers: StrMap::new(),
            channels: StrMap::new(),
            entry_point: None,
            finish_point: None,
        }
    }

    /// Adds `node` under `name`; refuses a name already used.
    pub(crate) fn add_held_node(&mut self, name: &str, held: Slot<NodeAction>) -> (r: Result<(), GraphError>)
        ensures
            r is Err <==> old(self).node_names().contains(name@),
            r matches Err(e) ==> e@ == GraphErrorView::DuplicateNode(name@),
            r is Ok ==> final(self).node_map().dom() == old(self).node_map().dom().insert(name@),
            r is Ok ==> final(self).node_map()[name@] is Plain && final(self).node_map()[name@]->Plain_0 == held,
            r is Ok ==> forall|k: Seq<char>| k != name@ && #[trigger] old(self).node_map().contains_key(k) ==> final(self).node_map()[k] == old(self).node_map()[k],
            r is Err ==> *final(self) == *old(self),
            final(self).edge_list() == old(self).edge_list(),
            final(self).cond_list() == old(self).cond_list(),
            final(self).cond_edges() == old(self).cond_edges(),
            final(self).entry() == old(self).entry(),
            final(self).finish() == old(self).finish(),
            final(self).reducer_map() == old(self).reducer_map(),
            final(self).channel_map() == old(self).channel_map(),
    {
        if self.nodes.contains_key(name) {
            return Err(GraphError::DuplicateNode(owned(name)));
        }
        let node = GraphNode::Plain(held);
        self.nodes.insert(owned(name), node);
        Ok(())
    }

    /// Adds a node running `held` with the runtime context under `name`;
    /// refuses a name already used.
    pub(crate) fn add_held_runtime(&mut self, name: &str, held: Slot<RuntimeNodeAction>) -> (r: Result<(), GraphError>)
        ensures
            r is Err <==> old(self).node_names().contains(name@),
            r matches Err(e) ==> e@ == GraphErrorView::DuplicateNode(name@),
            r is Ok ==> final(self).node_map().dom() == old(self).node_map().dom().insert(name@),
            r is Ok ==> final(self).node_map()[name@] is Runtime && final(self).node_map()[name@]->Runtime_0 == held,
            r is Ok ==> forall|k: Seq<char>| k != name@ && #[trigger] old(self).node_map().contains_key(k) ==> final(self).node_map()[k] == old(self).node_map()[k],
            r is Err ==> *final(self) == *old(self),
            final(self).edge_list() == old(self).edge_list(),
            final(self).cond_list() == old(self).cond_list(),
            final(self).cond_edges() == old(self).cond_edges(),
            final(self).entry() == old(self).entry(),
            final(self).finish() == old(self).finish(),
            final(self).reducer_map() == old(self).reducer_map(),
            final(self).channel_map() == old(self).channel_map(),
    {
        if self.nodes.contains_key(name) {
            return Err(GraphError::DuplicateNode(owned(name)));
        }
        let node = GraphNode::Runtime(held);
        self.nodes.insert(owned(name), node);
        Ok(())
    }

    /// Adds conditional edges from `source` to `targets`, chosen by the
    /// router `held`.
    pub(crate) fn add_held_conditional(&mut self, source: &str, targets: &[&str], held: Slot<ConditionalRouteFn>)
        ensures
            final(self).cond_list() == old(self).cond_list().push(
                (source@, targets@.map_values(|t: &str| t@)),
            ),
            final(self).cond_edges().len() == old(self).cond_edges().len() + 1,
            final(self).cond_edges().drop_last() == old(self).cond_edges(),
            final(self).cond_edges().last().router == held.0,
            final(self).node_map() == old(self).node_map(),
            final(self).edge_list() == old(self).edge_list(),
            final(self).entry() == old(self).entry(),
            final(self).finish() == old(self).finish(),
            final(self).reducer_map() == old(self).reducer_map(),
            final(self).channel_map() == old(self).channel_map(),
    {
        let mut names: Vec<String> = Vec::new();
        let mut i: usize = 0;
        while i < targets.len()
            invariant
                i <= targets@.len(),
                names_view(names@) =~= targets@.subrange(0, i as int).map_values(|t: &str| t@),
            decreases targets@.len() - i,
        {
            let ghost before = names@;
            names.push(owned(targets[i]));
            proof {
                assert(targets@.subrange(0, i + 1) =~= targets@.subrange(0, i as int).push(targets@[i as int]));
                assert(names_view(names@) =~= names_view(before).push(targets@[i as int]@));
            }
            i = i + 1;
        }
        proof {
            assert(targets@.subrange(0, targets@.len() as int) =~= targets@);
        }
        let ghost given = held.0;
        let router = held.0;
        let edge = Routed { targets: names, router };
        assert(edge.router == given);
        self.store_conditional(source, edge);
    }

    /// Sets `entry` as the reducer of `field`, replacing any earlier one.
    pub(crate) fn add_held_reducer(&mut self, field: &str, entry: ReducerEntry)
        ensures
            final(self).reducer_map().dom() == old(self).reducer_map().dom().insert(field@),
            final(self).reducer_map()[field@] == entry,
            forall|k: Seq<char>| k != field@ && #[trigger] old(self).reducer_map().contains_key(k) ==> final(self).reducer_map()[k] == old(self).reducer_map()[k],
            final(self).node_map() == old(self).node_map(),
            final(self).edge_list() == old(self).edge_list(),
            final(self).cond_list() == old(self).cond_list(),
            final(self).cond_edges() == old(self).cond_edges(),
            final(self).entry() == old(self).entry(),
            final(self).finish() == old(self).finish(),
            final(self).channel_map() == old(self).channel_map(),
    {
        self.reducers.insert(owned(field), entry);
    }

    /// Adds a node that maps the state to a patch; refuses a name already used.
    pub fn add_node(&mut self, name: &str, action: NodeAction) -> (r: Result<(), GraphError>)
        ensures
            r is Err <==> old(self).node_names().contains(name@),
            r matches Err(e) ==> e@ == GraphErrorView::DuplicateNode(name@),
            r is Ok ==> final(self).node_map().contains_key(name@) && final(self).node_map()[name@] is Plain,
            r is Ok ==> final(self).node_map()[name@]->Plain_0.0 == action,
            r is Ok ==> final(self).node_map().dom() == old(self).node_map().dom().insert(name@),
            r is Ok ==> forall|k: Seq<char>| k != name@ && #[trigger] old(self).node_map().contains_key(k) ==> final(self).node_map()[k] == old(self).node_map()[k],
            r is Err ==> final(self).node_map() == old(self).node_map(),
            r is Err ==> *final(self) == *old(self),
            final(self).edge_list() == old(self).edge_list(),
            final(self).cond_list() == old(self).cond_list(),
            final(self).cond_edges() == old(self).cond_edges(),
            final(self).entry() == old(self).entry(),
            final(self).finish() == old(self).finish(),
            final(self).reducer_map() == old(self).reducer_map(),
            final(self).channel_map() == old(self).channel_map(),
    {
        if self.nodes.contains_key(name) {
            return Err(GraphError::DuplicateNode(owned(name)));
        }
        let ghost given = action;
        let held = Slot(action);
        assert(held.0 == given);
        let node = GraphNode::Plain(held);
        self.nodes.insert(owned(name), node);
        Ok(())
    }

    /// Adds a node that also reads the runtime context and may emit
    /// commands; refuses a name already used.
    pub fn add_node_with_runtime(&mut self, name: &str, action: RuntimeNodeAction) -> (r: Result<
        (),
        GraphError,
    >)
        ensures
            r is Err <==> old(self).node_names().contains(name@),
            r matches Err(e) ==> e@ == GraphErrorView::DuplicateNode(name@),
            r is Ok ==> final(self).node_map().contains_key(name@) && final(self).node_map()[name@] is Runtime,
            r is Ok ==> final(self).node_map()[name@]->Runtime_0.0 == action,
            r is Ok ==> final(self).node_map().dom() == old(self).node_map().dom().insert(name@),
            r is Ok ==> forall|k: Seq<char>| k != name@ && #[trigger] old(self).node_map().contains_key(k) ==> final(self).node_map()[k] == old(self).node_map()[k],
            r is Err ==> final(self).node_map() == old(self).node_map(),
            r is Err ==> *final(self) == *old(self),
            final(self).edge_list() == old(self).edge_list(),
            final(self).cond_list() == old(self).cond_list(),
            final(self).cond_edges() == old(self).cond_edges(),
            final(self).entry() == old(self).entry(),
            final(self).finish() == old(self).finish(),
            final(self).reducer_map() == old(self).reducer_map(),
            final(self).channel_map() == old(self).channel_map(),
    {
        if self.nodes.contains_key(name) {
            return Err(GraphError::DuplicateNode(owned(name)));
        }
        let ghost given = action;
        let held = Slot(action);
        assert(held.0 == given);
        let node = GraphNode::Runtime(held);
        self.nodes.insert(owned(name), node);
        Ok(())
    }

    /// Adds an edge; endpoints are checked when the graph is compiled.
    pub fn add_edge(&mut self, from: &str, to: &str) -> (r: Result<(), GraphError>)
        ensures
            r is Ok,
            final(self).edge_list() == old(self).edge_list().push((from@, to@)),
            final(self).node_map() == old(self).node_map(),
            final(self).cond_list() == old(self).cond_list(),
            final(self).cond_edges() == old(self).cond_edges(),
            final(self).entry() == old(self).entry(),
            final(self).finish() == old(self).finish(),
            final(self).reducer_map() == old(self).reducer_map(),
            final(self).channel_map() == old(self).channel_map(),
    {
        self.edges.push((owned(from), owned(to)));
        proof {
            assert(self.edge_list() =~= old(self).edge_list().push((from@, to@)));
        }
        Ok(())
    }

    /// Adds conditional edges from `source`: after `source` runs (and emits
    /// no goto), `router` chooses among `targets`.
    pub fn add_conditional_edges(&mut self, source: &str, targets: &[&str], router: ConditionalRouteFn)
        ensures
            final(self).cond_list() == old(self).cond_list().push(
                (source@, targets@.map_values(|t: &str| t@)),
            ),
            final(self).cond_edges().len() == old(self).cond_edges().len() + 1,
            final(self).cond_edges().drop_last() == old(self).cond_edges(),
            final(self).cond_edges().last().router == router,
            final(self).node_map() == old(self).node_map(),
            final(self).edge_list() == old(self).edge_list(),
            final(self).entry() == old(self).entry(),
            final(self).finish() == old(self).finish(),
            final(self).reducer_map() == old(self).reducer_map(),
            final(self).channel_map() == old(self).channel_map(),
    {
        let mut names: Vec<String> = Vec::new();
        let mut i: usize = 0;
        while i < targets.len()
            invariant
                i <= targets@.len(),
                names_view(names@) =~= targets@.subrange(0, i as int).map_values(|t: &str| t@),
            decreases targets@.len() - i,
        {
            let ghost before = names@;
            names.push(owned(targets[i]));
            proof {
                assert(targets@.subrange(0, i + 1) =~= targets@.subrange(0, i as int).push(targets@[i as int]));
                assert(names_view(names@) =~= names_view(before).push(targets@[i as int]@));
            }
            i = i + 1;
        }
        proof {
            assert(targets@.subrange(0, targets@.len() as int) =~= targets@);
        }
        let ghost given = router;
        let edge = Routed { targets: names, router };
        assert(edge.router == given);
        self.store_conditional(source, edge);
    }

    fn store_conditional(&mut self, source: &str, edge: ConditionalEdge)
        ensures
            final(self).cond_list() == old(self).cond_list().push((source@, names_view(edge.targets@))),
            final(self).cond_edges() == old(self).cond_edges().push(edge),
            final(self).node_map() == old(self).node_map(),
            final(self).edge_list() == old(self).edge_list(),
            final(self).entry() == old(self).entry(),
            final(self).finish() == old(self).finish(),
            final(self).reducer_map() == old(self).reducer_map(),
            final(self).channel_map() == old(self).channel_map(),
    {
        let ghost tv = names_view(edge.targets@);
        self.conditional_edges.push((owned(source), edge));
        proof {
            assert(self.cond_list() =~= old(self).cond_list().push((source@, tv)));
        }
    }

    fn store_reducer(&mut self, field: &str, entry: ReducerEntry)
        ensures
            final(self).reducer_map() == old(self).reducer_map().insert(field@, entry),
            final(self).node_map() == old(self).node_map(),
            final(self).edge_list() == old(self).edge_list(),
            final(self).cond_list() == old(self).cond_list(),
            final(self).cond_edges() == old(self).cond_edges(),
            final(self).entry() == old(self).entry(),
            final(self).finish() == old(self).finish(),
            final(self).channel_map() == old(self).channel_map(),
    {
        self.reducers.insert(owned(field), entry);
        proof {
            assert(self.reducers@.dom() =~= old(self).reducers@.dom().insert(field@));
        }
    }

    fn store_channel(&mut self, field: &str, entry: ChannelEntry)
        ensures
            final(self).channel_map() == old(self).channel_map().insert(field@, entry),
            final(self).node_map() == old(self).node_map(),
            final(self).edge_list() == old(self).edge_list(),
            final(self).cond_list() == old(self).cond_list(),
            final(self).cond_edges() == old(self).cond_edges(),
            final(self).entry() == old(self).entry(),
            final(self).finish() == old(self).finish(),
            final(self).reducer_map() == old(self).reducer_map(),
    {
        self.channels.insert(owned(field), entry);
        proof {
            assert(self.channels@.dom() =~= old(self).channels@.dom().insert(field@));
        }
    }

    /// Sets the reducer of a field, replacing any earlier one.
    pub fn add_reducer(&mut self, field: &str, reducer: ReducerFn)
        ensures
            final(self).reducer_map().contains_key(field@) && final(self).reducer_map()[field@].0 == reducer,
            final(self).reducer_map().dom() == old(self).reducer_map().dom().insert(field@),
            forall|k: Seq<char>| k != field@ && #[trigger] old(self).reducer_map().contains_key(k) ==> final(self).reducer_map()[k] == old(self).reducer_map()[k],
            final(self).node_map() == old(self).node_map(),
            final(self).edge_list() == old(self).edge_list(),
            final(self).cond_list() == old(self).cond_list(),
            final(self).cond_edges() == old(self).cond_edges(),
            final(self).entry() == old(self).entry(),
            final(self).finish() == old(self).finish(),
            final(self).channel_map() == old(self).channel_map(),
    {
        let ghost given = reducer;
        let entry = Slot(reducer);
        assert(entry.0 == given);
        self.store_reducer(field, entry);
    }

    /// Sets the channel of a field, replacing any earlier one.
    pub fn add_channel(&mut self, field: &str, channel: ChannelRef)
        ensures
            final(self).channel_map().contains_key(field@) && final(self).channel_map()[field@].0 == channel,
            final(self).channel_map().dom() == old(self).channel_map().dom().insert(field@),
            forall|k: Seq<char>| k != field@ && #[trigger] old(self).channel_map().contains_key(k) ==> final(self).channel_map()[k] == old(self).channel_map()[k],
            final(self).node_map() == old(self).node_map(),
            final(self).edge_list() == old(self).edge_list(),
            final(self).cond_list() == old(self).cond_list(),
            final(self).cond_edges() == old(self).cond_edges(),
            final(self).entry() == old(self).entry(),
            final(self).finish() == old(self).finish(),
            final(self).reducer_map() == old(self).reducer_map(),
    {
        let ghost given = channel;
        let entry = Slot(channel);
        assert(entry.0 == given);
        self.store_channel(field, entry);
    }

    /// Sets the node where execution starts.
    pub fn set_entry_point(&mut self, node: &str)
        ensures
            final(self).entry() == Some(node@),
            final(self).node_map() == old(self).node_map(),
            final(self).edge_list() == old(self).edge_list(),
            final(self).cond_list() == old(self).cond_list(),
            final(self).cond_edges() == old(self).cond_edges(),
            final(self).finish() == old(self).finish(),
            final(self).reducer_map() == old(self).reducer_map(),
            final(self).channel_map() == old(self).channel_map(),
    {
        self.entry_point = Some(owned(node));
    }

    /// Sets the node where execution ends.
    pub fn set_finish_point(&mut self, node: &str)
        ensures
            final(self).finish() == Some(node@),
            final(self).node_map() == old(self).node_map(),
            final(self).edge_list() == old(self).edge_list(),
            final(self).cond_list() == old(self).cond_list(),
            final(self).cond_edges() == old(self).cond_edges(),
            final(self).entry() == old(self).entry(),
            final(self).reducer_map() == old(self).reducer_map(),
            final(self).channel_map() == old(self).channel_map(),
    {
        self.finish_point = Some(owned(node));
    }
}

/// A compiled graph: its nodes, edges grouped by source, conditional edges
/// by source, and the fields' reducers and channels.
pub struct CompiledGraph {
    pub nodes: StrMap<GraphNode>,
    pub adjacency: StrMap<Vec<String>>,
    pub conditional_edges: StrMap<ConditionalEdge>,
    pub reducers: StrMap<ReducerEntry>,
    pub channels: StrMap<ChannelEntry>,
    pub entry_point: String,
    pub finish_point: String,
}

/// Whether some edge leaves `u`.
pub open spec fn is_edge_source(edges: Seq<EdgeView>, u: Seq<char>) -> bool {
    exists|i: int| 0 <= i < edges.len() && (#[trigger] edges[i]).0 == u
}

/// Whether some conditional edge leaves `u`.
pub open spec fn is_cond_source(conds: Seq<CondView>, u: Seq<char>) -> bool {
    exists|c: int| 0 <= c < conds.len() && (#[trigger] conds[c]).0 == u
}

/// All endpoints of plain edges are nodes.
pub open spec fn edges_valid(edges: Seq<EdgeView>, nodes: Set<Seq<char>>) -> bool {
    forall|i: int| 0 <= i < edges.len() ==> nodes.contains((#[trigger] edges[i]).0) && nodes.contains(edges[i].1)
}

/// All targets of conditional edges are nodes.
pub open spec fn cond_targets_valid(conds: Seq<CondView>, nodes: Set<Seq<char>>) -> bool {
    forall|c: int, w: Seq<char>| 0 <= c < conds.len() && #[trigger] conds[c].1.contains(w) ==> nodes.contains(w)
}

proof fn lemma_first_bad_edge_none(edges: Seq<EdgeView>, nodes: Set<Seq<char>>, i: int)
    requires
        0 <= i <= edges.len(),
        forall|j: int| 0 <= j < i ==> nodes.contains((#[trigger] edges[j]).0) && nodes.contains(edges[j].1),
    ensures
        first_bad_edge(edges, nodes, 0) == first_bad_edge(edges, nodes, i),
    decreases i,
{
    if i > 0 {
        lemma_first_bad_edge_none(edges, nodes, i - 1);
    }
}

proof fn lemma_first_bad_target_none(ts: Seq<Seq<char>>, nodes: Set<Seq<char>>, i: int)
    requires
        0 <= i <= ts.len(),
        forall|j: int| 0 <= j < i ==> nodes.contains(#[trigger] ts[j]),
    ensures
        first_bad_target(ts, nodes, 0) == first_bad_target(ts, nodes, i),
    decreases i,
{
    if i > 0 {
        lemma_first_bad_target_none(ts, nodes, i - 1);
    }
}

proof fn lemma_first_cond_fault_none(conds: Seq<CondView>, nodes: Set<Seq<char>>, i: int)
    requires
        0 <= i <= conds.len(),
        forall|j: int| 0 <= j < i ==> cond_fault(conds, nodes, j) is None,
    ensures
        first_cond_fault(conds, nodes, 0) == first_cond_fault(conds, nodes, i),
    decreases i,
{
    if i > 0 {
        lemma_first_cond_fault_none(conds, nodes, i - 1);
    }
}

proof fn lemma_first_bad_edge_all(edges: Seq<EdgeView>, nodes: Set<Seq<char>>, i: int)
    requires
        0 <= i <= edges.len(),
        first_bad_edge(edges, nodes, i) is None,
    ensures
        forall|j: int| i <= j < edges.len() ==> nodes.contains((#[trigger] edges[j]).0) && nodes.contains(edges[j].1),
    decreases edges.len() - i,
{
    if i < edges.len() {
        lemma_first_bad_edge_all(edges, nodes, i + 1);
    }
}

proof fn lemma_first_bad_target_all(ts: Seq<Seq<char>>, nodes: Set<Seq<char>>, i: int)
    requires
        0 <= i <= ts.len(),
        first_bad_target(ts, nodes, i) is None,
    ensures
        forall|j: int| i <= j < ts.len() ==> nodes.contains(#[trigger] ts[j]),
    decreases ts.len() - i,
{
    if i < ts.len() {
        lemma_first_bad_target_all(ts, nodes, i + 1);
    }
}

proof fn lemma_first_cond_fault_all(conds: Seq<CondView>, nodes: Set<Seq<char>>, i: int)
    requires
        0 <= i <= conds.len(),
        first_cond_fault(conds, nodes, i) is None,
    ensures
        forall|j: int| i <= j < conds.len() ==> #[trigger] cond_fault(conds, nodes, j) is None,
    decreases conds.len() - i,
{
    if i < conds.len() {
        lemma_first_cond_fault_all(conds, nodes, i + 1);
    }
}

/// Extending a path by one edge.
proof fn lemma_reachable_step(edges: Seq<EdgeView>, conds: Seq<CondView>, a: Seq<char>, x: Seq<char>, w: Seq<char>)
    requires
        reachable(edges, conds, a, x),
        has_edge(edges, conds, x, w),
    ensures
        reachable(edges, conds, a, w),
{
    let p = choose|p: Seq<Seq<char>>| is_path(edges, conds, p) && p[0] == a && p.last() == x;
    let q = p.push(w);
    assert forall|i: int| 0 <= i < q.len() - 1 implies has_edge(edges, conds, #[trigger] q[i], q[i + 1]) by {
        if i < p.len() - 1 {
            assert(q[i] == p[i] && q[i + 1] == p[i + 1]);
        } else {
            assert(q[i] == x);
            assert(q[i + 1] == w);
        }
    }
    assert(is_path(edges, conds, q) && q[0] == a && q.last() == w);
}

/// A set that holds `a` and is closed under edges holds everything reachable from `a`.
proof fn lemma_closed_holds_reachable(
    edges: Seq<EdgeView>,
    conds: Seq<CondView>,
    s: Set<Seq<char>>,
    a: Seq<char>,
    b: Seq<char>,
)
    requires
        s.contains(a),
        forall|v: Seq<char>, w: Seq<char>| s.contains(v) && #[trigger] has_edge(edges, conds, v, w) ==> s.contains(w),
        reachable(edges, conds, a, b),
    ensures
        s.contains(b),
{
    let p = choose|p: Seq<Seq<char>>| is_path(edges, conds, p) && p[0] == a && p.last() == b;
    lemma_closed_path_prefix(edges, conds, s, p, p.len() - 1);
}

proof fn lemma_closed_path_prefix(
    edges: Seq<EdgeView>,
    conds: Seq<CondView>,
    s: Set<Seq<char>>,
    p: Seq<Seq<char>>,
    i: int,
)
    requires
        is_path(edges, conds, p),
        s.contains(p[0]),
        0 <= i < p.len(),
        forall|v: Seq<char>, w: Seq<char>| s.contains(v) && #[trigger] has_edge(edges, conds, v, w) ==> s.contains(w),
    ensures
        s.contains(p[i]),
    decreases i,
{
    if i > 0 {
        lemma_closed_path_prefix(edges, conds, s, p, i - 1);
        assert(has_edge(edges, conds, p[i - 1], p[i]));
    }
}

proof fn lemma_edge_targets(edges: Seq<EdgeView>, u: Seq<char>)
    ensures
        edge_targets(edges, u).len() > 0 <==> is_edge_source(edges, u),
        forall|w: Seq<char>| edge_targets(edges, u).contains(w) <==> exists|i: int| 0 <= i < edges.len() && #[trigger] edges[i] == (u, w),
    decreases edges.len(),
{
    if edges.len() > 0 {
        let rest = edges.drop_last();
        lemma_edge_targets(rest, u);
        let last = edges.last();
        assert forall|i: int| 0 <= i < rest.len() implies #[trigger] rest[i] == edges[i] by {}
        if is_edge_source(edges, u) && last.0 != u {
            let i = choose|i: int| 0 <= i < edges.len() && (#[trigger] edges[i]).0 == u;
            assert(rest[i].0 == u);
        }
        if is_edge_source(rest, u) {
            let i = choose|i: int| 0 <= i < rest.len() && (#[trigger] rest[i]).0 == u;
            assert(edges[i].0 == u);
        }
        if last.0 == u {
            assert(edges[edges.len() - 1].0 == u);
        }
        assert forall|w: Seq<char>| edge_targets(edges, u).contains(w) <==> exists|i: int| 0 <= i < edges.len() && #[trigger] edges[i] == (u, w) by {
            let r = edge_targets(rest, u);
            if edge_targets(edges, u).contains(w) {
                if last.0 == u && w == last.1 {
                    assert(edges[edges.len() - 1] == (u, w));
                } else {
                    if last.0 == u {
                        let k = choose|k: int| 0 <= k < r.push(last.1).len() && r.push(last.1)[k] == w;
                        assert(r.contains(w)) by {
                            assert(k < r.len());
                            assert(r[k] == w);
                        }
                    }
                    let i = choose|i: int| 0 <= i < rest.len() && #[trigger] rest[i] == (u, w);
                    assert(edges[i] == (u, w));
                }
            }
            if exists|i: int| 0 <= i < edges.len() && #[trigger] edges[i] == (u, w) {
                let i = choose|i: int| 0 <= i < edges.len() && #[trigger] edges[i] == (u, w);
                if i == edges.len() - 1 {
                    assert(edge_targets(edges, u) == r.push(w));
                    assert(r.push(w)[r.len() as int] == w);
                } else {
                    assert(rest[i] == (u, w));
                    assert(r.contains(w));
                    let k = choose|k: int| 0 <= k < r.len() && r[k] == w;
                    if last.0 == u {
                        assert(r.push(last.1)[k] == w);
                    }
                }
            }
        }
    }
}

impl StateGraph {
    /// The targets of the edges leaving `u`, in the order they were added.
    fn targets_from(&self, u: &str) -> (r: Vec<String>)
        ensures
            names_view(r@) == edge_targets(self.edge_list(), u@),
    {
        let mut out: Vec<String> = Vec::new();
        let mut i: usize = 0;
        while i < self.edges.len()
            invariant
                i <= self.edges@.len(),
                names_view(out@) == edge_targets(self.edge_list().subrange(0, i as int), u@),
            decreases self.edges@.len() - i,
        {
            let ghost before = out@;
            if str_eq(self.edges[i].0.as_str(), u) {
                out.push(self.edges[i].1.clone());
                proof {
                    assert(names_view(out@) =~= names_view(before).push(self.edges@[i as int].1@));
                }
            }
            proof {
                let es = self.edge_list().subrange(0, i + 1);
                assert(es.drop_last() =~= self.edge_list().subrange(0, i as int));
                assert(es.last() == (self.edges@[i as int].0@, self.edges@[i as int].1@));
            }
            i = i + 1;
        }
        proof {
            assert(self.edge_list().subrange(0, self.edges@.len() as int) =~= self.edge_list());
        }
        out
    }

    /// Depth-first search from `from`; whether `to` is reachable.
    fn reaches(&self, from: &str, to: &str) -> (b: bool)
        requires
            self.node_names().contains(from@),
            edges_valid(self.edge_list(), self.node_names()),
            cond_targets_valid(self.cond_list(), self.node_names()),
        ensures
            b == reachable(self.edge_list(), self.cond_list(), from@, to@),
    {
        let ghost es = self.edge_list();
        let ghost cs = self.cond_list();
        let ghost ns = self.node_names();
        let mut visited = StrSet::new();
        let mut stack: Vec<String> = Vec::new();
        stack.push(owned(from));
        proof {
            self.nodes.lemma_dom_len_pub();
            let p = seq![from@];
            assert(is_path(es, cs, p) && p[0] == from@ && p.last() == from@);
            assert(names_view(stack@)[0] == from@);
        }
        while stack.len() > 0
            invariant
                es == self.edge_list(),
                cs == self.cond_list(),
                ns == self.node_names(),
                ns.finite(),
                edges_valid(es, ns),
                cond_targets_valid(cs, ns),
                visited@.subset_of(ns),
                visited@.finite(),
                forall|i: int| 0 <= i < stack@.len() ==> ns.contains(#[trigger] stack@[i]@),
                forall|v: Seq<char>| #[trigger] visited@.contains(v) ==> reachable(es, cs, from@, v),
                forall|i: int| 0 <= i < stack@.len() ==> reachable(es, cs, from@, #[trigger] stack@[i]@),
                visited@.contains(from@) || names_view(stack@).contains(from@),
                forall|v: Seq<char>, w: Seq<char>|
                    visited@.contains(v) && #[trigger] has_edge(es, cs, v, w) ==> visited@.contains(w)
                        || names_view(stack@).contains(w),
            decreases ns.len() - visited@.len(), stack@.len(),
        {
            let ghost old_stack = stack@;
            let ghost old_visited = visited@;
            let node = stack.pop().unwrap();
            let ghost x = node@;
            proof {
                assert(old_stack == stack@.push(node));
                assert forall|w: Seq<char>| names_view(old_stack).contains(w) implies w == x || names_view(
                    stack@,
                ).contains(w) by {
                    let k = choose|k: int| 0 <= k < names_view(old_stack).len() && names_view(old_stack)[k] == w;
                    if k < stack@.len() {
                        assert(names_view(stack@)[k] == w);
                    }
                }
                vstd::set_lib::lemma_len_subset(visited@, ns);
            }
            if visited.contains(node.as_str()) {
                continue;
            }
            visited.insert(node.clone());
            proof {
                assert(ns.contains(x));
                assert(visited@ == old_visited.insert(x));
                vstd::set_lib::lemma_len_subset(visited@, ns);
            }
            let mut i: usize = 0;
            while i < self.edges.len()
                invariant
                    es == self.edge_list(),
                    cs == self.cond_list(),
                    ns == self.node_names(),
                    x == node@,
                    edges_valid(es, ns),
                    i <= self.edges@.len(),
                    visited@.contains(x),
                    reachable(es, cs, from@, x),
                    forall|k: int| 0 <= k < stack@.len() ==> ns.contains(#[trigger] stack@[k]@),
                    forall|k: int| 0 <= k < stack@.len() ==> reachable(es, cs, from@, #[trigger] stack@[k]@),
                    forall|w: Seq<char>| names_view(old_stack).contains(w) ==> w == x || names_view(stack@).contains(w),
                    forall|j: int| 0 <= j < i && es[j].0 == x ==> names_view(stack@).contains(#[trigger] es[j].1),
                decreases self.edges@.len() - i,
            {
                let ghost before = stack@;
                if str_eq(self.edges[i].0.as_str(), node.as_str()) {
                    stack.push(self.edges[i].1.clone());
                    proof {
                        let w = es[i as int].1;
                        assert(es[i as int] == (x, w));
                        assert(has_edge(es, cs, x, w));
                        lemma_reachable_step(es, cs, from@, x, w);
                        assert(names_view(stack@) =~= names_view(before).push(w));
                        assert(names_view(stack@)[before.len() as int] == w);
                    }
                }
                proof {
                    assert forall|w: Seq<char>| names_view(before).contains(w) implies names_view(stack@).contains(w) by {
                        let k = choose|k: int| 0 <= k < names_view(before).len() && names_view(before)[k] == w;
                        assert(names_view(stack@)[k] == w);
                    }
                }
                i = i + 1;
            }
            let mut c: usize = 0;
            while c < self.conditional_edges.len()
                invariant
                    es == self.edge_list(),
                    cs == self.cond_list(),
                    ns == self.node_names(),
                    x == node@,
                    cond_targets_valid(cs, ns),
                    c <= self.conditional_edges@.len(),
                    visited@.contains(x),
                    reachable(es, cs, from@, x),
                    forall|k: int| 0 <= k < stack@.len() ==> ns.contains(#[trigger] stack@[k]@),
                    forall|k: int| 0 <= k < stack@.len() ==> reachable(es, cs, from@, #[trigger] stack@[k]@),
                    forall|w: Seq<char>| names_view(old_stack).contains(w) ==> w == x || names_view(stack@).contains(w),
                    forall|j: int| 0 <= j < es.len() && es[j].0 == x ==> names_view(stack@).contains(#[trigger] es[j].1),
                    forall|d: int, w: Seq<char>| 0 <= d < c && cs[d].0 == x && #[trigger] cs[d].1.contains(w) ==> names_view(stack@).contains(w),
                decreases self.conditional_edges@.len() - c,
            {
                if str_eq(self.conditional_edges[c].0.as_str(), node.as_str()) {
                    let targets = &self.conditional_edges[c].1.targets;
                    let mut k: usize = 0;
                    while k < targets.len()
                        invariant
                            es == self.edge_list(),
                            cs == self.cond_list(),
                            ns == self.node_names(),
                            x == node@,
                            cond_targets_valid(cs, ns),
                            c < self.conditional_edges@.len(),
                            cs[c as int].0 == x,
                            cs[c as int].1 == names_view(targets@),
                            k <= targets@.len(),
                            reachable(es, cs, from@, x),
                            forall|q: int| 0 <= q < stack@.len() ==> ns.contains(#[trigger] stack@[q]@),
                            forall|q: int| 0 <= q < stack@.len() ==> reachable(es, cs, from@, #[trigger] stack@[q]@),
                            forall|w: Seq<char>| names_view(old_stack).contains(w) ==> w == x || names_view(stack@).contains(w),
                            forall|j: int| 0 <= j < es.len() && es[j].0 == x ==> names_view(stack@).contains(#[trigger] es[j].1),
                            forall|d: int, w: Seq<char>| 0 <= d < c && cs[d].0 == x && #[trigger] cs[d].1.contains(w) ==> names_view(stack@).contains(w),
                            forall|q: int| 0 <= q < k ==> names_view(stack@).contains(#[trigger] names_view(targets@)[q]),
                        decreases targets@.len() - k,
                    {
                        let ghost before = stack@;
                        stack.push(targets[k].clone());
                        proof {
                            let w = targets@[k as int]@;
                            assert(names_view(targets@)[k as int] == w);
                            assert(cs[c as int].1.contains(w));
                            assert(ns.contains(w));
                            assert(has_edge(es, cs, x, w));
                            lemma_reachable_step(es, cs, from@, x, w);
                            assert(names_view(stack@) =~= names_view(before).push(w));
                            assert(names_view(stack@)[before.len() as int] == w);
                            assert forall|w2: Seq<char>| names_view(before).contains(w2) implies names_view(stack@).contains(w2) by {
                                let q = choose|q: int| 0 <= q < names_view(before).len() && names_view(before)[q] == w2;
                                assert(names_view(stack@)[q] == w2);
                            }
                        }
                        k = k + 1;
                    }
                    proof {
                        assert forall|w: Seq<char>| cs[c as int].1.contains(w) implies names_view(stack@).contains(w) by {
                            let q = choose|q: int| 0 <= q < cs[c as int].1.len() && cs[c as int].1[q] == w;
                            assert(names_view(targets@)[q] == w);
                        }
                    }
                }
                c = c + 1;
            }
            proof {
                assert forall|v: Seq<char>, w: Seq<char>|
                    visited@.contains(v) && #[trigger] has_edge(es, cs, v, w) implies visited@.contains(w)
                        || names_view(stack@).contains(w) by {
                    if v == x {
                        if exists|i: int| 0 <= i < es.len() && #[trigger] es[i] == (v, w) {
                            let i = choose|i: int| 0 <= i < es.len() && #[trigger] es[i] == (v, w);
                            assert(es[i].0 == x && es[i].1 == w);
                        } else {
                            let d = choose|d: int| 0 <= d < cs.len() && (#[trigger] cs[d]).0 == v && cs[d].1.contains(w);
                        }
                    } else {
                        assert(old_visited.contains(v));
                    }
                }
            }
        }
        proof {
            if reachable(es, cs, from@, to@) {
                lemma_closed_holds_reachable(es, cs, visited@, from@, to@);
            }
        }
        visited.contains(to)
    }
}

impl StateGraph {
    /// Checks the graph and compiles it.  The checks, in order: an entry and
    /// a finish point are set and are nodes; every edge joins two nodes;
    /// every conditional edge leaves a node, is the only one from its source,
    /// and targets only nodes; the finish point has no outgoing edge; the
    /// finish point can be reached from the entry point.
    #[verifier::loop_isolation(false)]
    pub fn compile(self) -> (r: Result<CompiledGraph, GraphError>)
        ensures
            r is Ok <==> compile_verdict(
                self.node_names(),
                self.edge_list(),
                self.cond_list(),
                self.entry(),
                self.finish(),
            ) is None,
            r matches Err(e) ==> Some(e@) == compile_verdict(
                self.node_names(),
                self.edge_list(),
                self.cond_list(),
                self.entry(),
                self.finish(),
            ),
            r matches Ok(c) ==> {
                &&& c.nodes@ == self.node_map()
                &&& c.reducers@ == self.reducer_map()
                &&& c.channels@ == self.channel_map()
                &&& forall|i: int| 0 <= i < self.cond_list().len() ==> c.conditional_edges@[#[trigger] self.cond_list()[i].0] == self.cond_edges()[i]
                &&& c.nodes@.dom() == self.node_names()
                &&& Some(c.entry_point@) == self.entry()
                &&& Some(c.finish_point@) == self.finish()
                &&& c.reducers@.dom() == self.reducer_fields()
                &&& c.channels@.dom() == self.channel_fields()
                &&& forall|u: Seq<char>| #[trigger] c.adjacency@.contains_key(u) <==> is_edge_source(self.edge_list(), u)
                &&& forall|u: Seq<char>| #[trigger] c.adjacency@.contains_key(u) ==> names_view(c.adjacency@[u]@) == edge_targets(self.edge_list(), u)
                &&& forall|u: Seq<char>| #[trigger] c.conditional_edges@.contains_key(u) <==> is_cond_source(self.cond_list(), u)
                &&& forall|i: int| 0 <= i < self.cond_list().len() ==> names_view(c.conditional_edges@[#[trigger] self.cond_list()[i].0].targets@) == self.cond_list()[i].1
            },
    {
        let ghost ns = self.node_names();
        let ghost es = self.edge_list();
        let ghost cs = self.cond_list();
        let entry = match &self.entry_point {
            Some(e) => e.clone(),
            None => return Err(GraphError::MissingEntryPoint),
        };
        let finish = match &self.finish_point {
            Some(f) => f.clone(),
            None => return Err(GraphError::MissingFinishPoint),
        };
        if !self.nodes.contains_key(entry.as_str()) {
            return Err(GraphError::NodeNotFound(entry));
        }
        if !self.nodes.contains_key(finish.as_str()) {
            return Err(GraphError::NodeNotFound(finish));
        }
        let mut i: usize = 0;
        while i < self.edges.len()
            invariant
                es == self.edge_list(),
                ns == self.node_names(),
                i <= self.edges@.len(),
                forall|j: int| 0 <= j < i ==> ns.contains((#[trigger] es[j]).0) && ns.contains(es[j].1),
            decreases self.edges@.len() - i,
        {
            let from = &self.edges[i].0;
            let to = &self.edges[i].1;
            if !self.nodes.contains_key(from.as_str()) || !self.nodes.contains_key(to.as_str()) {
                proof {
                    assert(es[i as int] == (from@, to@));
                    lemma_first_bad_edge_none(es, ns, i as int);
                }
                return Err(GraphError::InvalidEdge { from: from.clone(), to: to.clone() });
            }
            i = i + 1;
        }
        proof {
            lemma_first_bad_edge_none(es, ns, es.len() as int);
        }
        let mut c: usize = 0;
        while c < self.conditional_edges.len()
            invariant
                cs == self.cond_list(),
                ns == self.node_names(),
                c <= self.conditional_edges@.len(),
                forall|j: int| 0 <= j < c ==> #[trigger] cond_fault(cs, ns, j) is None,
            decreases self.conditional_edges@.len() - c,
        {
            let source = &self.conditional_edges[c].0;
            let targets = &self.conditional_edges[c].1.targets;
            proof {
                assert(cs[c as int].0 == source@);
                assert(cs[c as int].1 == names_view(targets@));
            }
            if !self.nodes.contains_key(source.as_str()) {
                proof {
                    lemma_first_cond_fault_none(cs, ns, c as int);
                }
                return Err(GraphError::InvalidConditionalSource(source.clone()));
            }
            let mut d: usize = 0;
            while d < c
                invariant
                    cs == self.cond_list(),
                    c < self.conditional_edges@.len(),
                    d <= c,
                    cs[c as int].0 == source@,
                    forall|j: int| 0 <= j < d ==> (#[trigger] cs[j]).0 != source@,
                decreases c - d,
            {
                if str_eq(self.conditional_edges[d].0.as_str(), source.as_str()) {
                    proof {
                        assert(cs[d as int].0 == source@);
                        lemma_first_cond_fault_none(cs, ns, c as int);
                    }
                    return Err(GraphError::DuplicateConditionalSource(source.clone()));
                }
                d = d + 1;
            }
            let mut k: usize = 0;
            while k < targets.len()
                invariant
                    cs == self.cond_list(),
                    ns == self.node_names(),
                    c < self.conditional_edges@.len(),
                    cs[c as int].1 == names_view(targets@),
                    k <= targets@.len(),
                    forall|q: int| 0 <= q < k ==> ns.contains(#[trigger] names_view(targets@)[q]),
                decreases targets@.len() - k,
            {
                if !self.nodes.contains_key(targets[k].as_str()) {
                    proof {
                        lemma_first_bad_target_none(names_view(targets@), ns, k as int);
                        lemma_first_cond_fault_none(cs, ns, c as int);
                    }
                    return Err(GraphError::InvalidConditionalTarget {
                        from: source.clone(),
                        to: targets[k].clone(),
                    });
                }
                k = k + 1;
            }
            proof {
                lemma_first_bad_target_none(names_view(targets@), ns, targets@.len() as int);
            }
            c = c + 1;
        }
        proof {
            lemma_first_cond_fault_none(cs, ns, cs.len() as int);
        }
        let mut i: usize = 0;
        while i < self.edges.len()
            invariant
                es == self.edge_list(),
                i <= self.edges@.len(),
                forall|j: int| 0 <= j < i ==> (#[trigger] es[j]).0 != finish@,
            decreases self.edges@.len() - i,
        {
            if str_eq(self.edges[i].0.as_str(), finish.as_str()) {
                proof {
                    assert(es[i as int].0 == finish@);
                }
                return Err(GraphError::FinishHasOutgoingEdges(finish));
            }
            i = i + 1;
        }
        let mut c: usize = 0;
        while c < self.conditional_edges.len()
            invariant
                cs == self.cond_list(),
                c <= self.conditional_edges@.len(),
                forall|j: int| 0 <= j < c ==> (#[trigger] cs[j]).0 != finish@,
            decreases self.conditional_edges@.len() - c,
        {
            if str_eq(self.conditional_edges[c].0.as_str(), finish.as_str()) {
                proof {
                    assert(cs[c as int].0 == finish@);
                }
                return Err(GraphError::FinishHasOutgoingEdges(finish));
            }
            c = c + 1;
        }
        proof {
            lemma_first_bad_edge_all(es, ns, 0);
            lemma_first_cond_fault_all(cs, ns, 0);
            assert forall|c: int, w: Seq<char>| 0 <= c < cs.len() && #[trigger] cs[c].1.contains(w) implies ns.contains(w) by {
                assert(cond_fault(cs, ns, c) is None);
                lemma_first_bad_target_all(cs[c].1, ns, 0);
                let q = choose|q: int| 0 <= q < cs[c].1.len() && cs[c].1[q] == w;
            }
        }
        if !self.reaches(entry.as_str(), finish.as_str()) {
            return Err(GraphError::DidNotReachFinish(finish));
        }
        // Group the edges by source.
        let mut sources = StrSet::new();
        let mut i: usize = 0;
        while i < self.edges.len()
            invariant
                es == self.edge_list(),
                i <= self.edges@.len(),
                forall|u: Seq<char>| sources@.contains(u) <==> exists|j: int| 0 <= j < i && (#[trigger] es[j]).0 == u,
            decreases self.edges@.len() - i,
        {
            let ghost before = sources@;
            sources.insert(self.edges[i].0.clone());
            proof {
                assert forall|u: Seq<char>| sources@.contains(u) <==> exists|j: int| 0 <= j < i + 1 && (#[trigger] es[j]).0 == u by {
                    if u == es[i as int].0 {
                        assert(es[i as int].0 == u);
                    }
                    if exists|j: int| 0 <= j < i + 1 && (#[trigger] es[j]).0 == u {
                        let j = choose|j: int| 0 <= j < i + 1 && (#[trigger] es[j]).0 == u;
                        if j < i {
                            assert(before.contains(u));
                        }
                    }
                }
            }
            i = i + 1;
        }
        let mut adjacency: StrMap<Vec<String>> = StrMap::new();
        let n = sources.len();
        let mut t: usize = 0;
        proof {
            sources.lemma_elems();
        }
        while t < n
            invariant
                es == self.edge_list(),
                n == sources.elems().len(),
                t <= n,
                sources.elems().no_duplicates(),
                forall|q: int| 0 <= q < sources.elems().len() ==> #[trigger] sources@.contains(sources.elems()[q]),
                forall|u: Seq<char>| #[trigger] sources@.contains(u) ==> sources.elems().contains(u),
                forall|u: Seq<char>| sources@.contains(u) <==> is_edge_source(es, u),
                forall|u: Seq<char>| #[trigger] adjacency@.contains_key(u) <==> sources.elems().subrange(0, t as int).contains(u),
                forall|u: Seq<char>| #[trigger] adjacency@.contains_key(u) ==> names_view(adjacency@[u]@) == edge_targets(es, u),
            decreases n - t,
        {
            let u = sources.at(t);
            let targets = self.targets_from(u.as_str());
            let ghost prefix = sources.elems().subrange(0, t as int);
            adjacency.insert(u.clone(), targets);
            proof {
                assert(sources.elems().subrange(0, t + 1) =~= prefix.push(u@));
                assert forall|w: Seq<char>| #[trigger] adjacency@.contains_key(w) <==> sources.elems().subrange(0, t + 1).contains(w) by {
                    let ext = sources.elems().subrange(0, t + 1);
                    if ext.contains(w) && w != u@ {
                        let q = choose|q: int| 0 <= q < ext.len() && ext[q] == w;
                        assert(prefix[q] == w);
                    }
                    if prefix.contains(w) {
                        let q = choose|q: int| 0 <= q < t && prefix[q] == w;
                        assert(sources.elems().subrange(0, t + 1)[q] == w);
                    }
                    if w == u@ {
                        assert(sources.elems().subrange(0, t + 1)[t as int] == w);
                    }
                }
            }
            t = t + 1;
        }
        proof {
            assert(sources.elems().subrange(0, n as int) =~= sources.elems());
            assert forall|u: Seq<char>| #[trigger] adjacency@.contains_key(u) <==> is_edge_source(es, u) by {
                if is_edge_source(es, u) {
                    let j = choose|j: int| 0 <= j < es.len() && (#[trigger] es[j]).0 == u;
                    assert(sources@.contains(u));
                }
                if adjacency@.contains_key(u) {
                    let q = choose|q: int| 0 <= q < sources.elems().len() && sources.elems()[q] == u;
                    assert(sources@.contains(sources.elems()[q]));
                }
            }
        }
        let StateGraph { nodes, edges: _, conditional_edges, reducers, channels, entry_point: _, finish_point: _ } = self;
        // Index the conditional edges by source.
        let mut conds = conditional_edges;
        let mut cmap: StrMap<ConditionalEdge> = StrMap::new();
        let ghost total = conds@.len();
        let ghost all = conds@;
        proof {
            assert(cs =~= all.map_values(|c: (String, ConditionalEdge)| (c.0@, names_view(c.1.targets@))));
        }
        while conds.len() > 0
            invariant
                conds@.len() <= total,
                total == all.len(),
                conds@ == all.subrange(0, conds@.len() as int),
                cs == all.map_values(|c: (String, ConditionalEdge)| (c.0@, names_view(c.1.targets@))),
                forall|j: int| 0 <= j < cs.len() ==> #[trigger] cond_fault(cs, ns, j) is None,
                forall|u: Seq<char>| #[trigger] cmap@.contains_key(u) <==> exists|j: int| conds@.len() <= j < total && (#[trigger] cs[j]).0 == u,
                forall|j: int| conds@.len() <= j < total ==> names_view(cmap@[#[trigger] cs[j].0].targets@) == cs[j].1,
                forall|j: int| conds@.len() <= j < total ==> cmap@[#[trigger] cs[j].0] == all[j].1,
            decreases conds@.len(),
        {
            let ghost m = conds@.len() - 1;
            let (source, edge) = conds.pop().unwrap();
            proof {
                assert(all[m] == (source, edge));
                assert(cs[m] == (source@, names_view(edge.targets@)));
                assert(conds@ =~= all.subrange(0, m));
            }
            let ghost prev = cmap@;
            cmap.insert(source, edge);
            proof {
                assert forall|u: Seq<char>| #[trigger] cmap@.contains_key(u) <==> exists|j: int| m <= j < total && (#[trigger] cs[j]).0 == u by {
                    if u == cs[m].0 {
                        assert(cs[m].0 == u);
                    }
                    if exists|j: int| m <= j < total && (#[trigger] cs[j]).0 == u {
                        let j = choose|j: int| m <= j < total && (#[trigger] cs[j]).0 == u;
                        if j > m {
                            assert(prev.contains_key(u));
                        }
                    }
                }
                assert forall|j: int| m <= j < total implies cmap@[#[trigger] cs[j].0] == all[j].1 by {
                    if j > m {
                        assert(cond_fault(cs, ns, j) is None);
                        if cs[j].0 == cs[m].0 {
                            assert(exists|q: int| 0 <= q < j && (#[trigger] cs[q]).0 == cs[j].0);
                        }
                    }
                }
                assert forall|j: int| m <= j < total implies names_view(cmap@[#[trigger] cs[j].0].targets@) == cs[j].1 by {
                    if j > m {
                        assert(cond_fault(cs, ns, j) is None);
                        if cs[j].0 == cs[m].0 {
                            assert(exists|q: int| 0 <= q < j && (#[trigger] cs[q]).0 == cs[j].0);
                        }
                    }
                }
            }
        }
        proof {
            assert forall|u: Seq<char>| #[trigger] cmap@.contains_key(u) <==> is_cond_source(cs, u) by {}
            assert forall|i: int| 0 <= i < cs.len() implies cmap@[#[trigger] cs[i].0] == self.cond_edges()[i] by {
                assert(self.cond_edges()[i] == all[i].1);
            }
        }
        Ok(CompiledGraph {
            nodes,
            adjacency,
            conditional_edges: cmap,
            reducers,
            channels,
            entry_point: entry,
            finish_point: finish,
        })
    }
}

impl Default for StateGraph {
    /// An empty graph.
    fn default() -> (g: Self)
        ensures
            g.node_names() == Set::<Seq<char>>::empty(),
            g.edge_list().len() == 0,
            g.cond_list().len() == 0,
            g.cond_edges().len() == 0,
            g.entry() is None,
            g.finish() is None,
            g.reducer_fields() == Set::<Seq<char>>::empty(),
            g.channel_fields() == Set::<Seq<char>>::empty(),
    {
        StateGraph::new()
    }
}

} // verus!
