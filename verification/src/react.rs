//! A reason-and-act agent graph: a planner that asks for tool calls, a tool
//! node that serves them, an optional validation step in front, and a
//! finish node.
//!
//! The planner runs first (after validation, if any).  When its patch holds
//! a tool request the run goes to the tools, which hand back to the
//! planner; otherwise it finishes.  Validation that finds issues finishes
//! the run before the planner is reached.
use vstd::prelude::*;
use crate::channel::Slot;
use crate::error::{GraphError, GraphErrorView};
use crate::graph::{
    compile_verdict, edge_targets, has_edge, is_cond_source, is_edge_source, is_path, reachable, CompiledGraph, ConditionalRouteFn, NodeAction, RouteFn,
    RuntimeNodeAction, RuntimeNodeFn, StateGraph, StateNodeFn,
};
use crate::json::{StrMap, Value};
use crate::runtime::{all_targets, commands_view, has_interrupt_spec, names_view, Command, NodeOutput, RuntimeContext};
use crate::state::{State, StatePatch};
use crate::text::owned;
use crate::tool_node::{served, requested_name, ToolNode};
use crate::validation::{reports, IssueView, ValidationNode};

verus! {

#[derive(Debug, PartialEq, Eq)]
pub struct ReactNodeNames {
    pub validate: String,
    pub planner: String,
    pub tools: String,
    pub finish: String,
}

impl Default for ReactNodeNames {
    /// The names `validate`, `planner`, `tools` and `finish`.
    fn default() -> (r: Self)
        ensures
            r.validate@ == "validate"@,
            r.planner@ == "planner"@,
            r.tools@ == "tools"@,
            r.finish@ == "finish"@,
    {
        ReactNodeNames {
            validate: owned("validate"),
            planner: owned("planner"),
            tools: owned("tools"),
            finish: owned("finish"),
        }
    }
}

impl ReactNodeNames {
    /// A copy of these names.
    pub fn copy(&self) -> (r: Self)
        ensures
            r.validate@ == self.validate@,
            r.planner@ == self.planner@,
            r.tools@ == self.tools@,
            r.finish@ == self.finish@,
    {
        ReactNodeNames {
            validate: self.validate.clone(),
            planner: self.planner.clone(),
            tools: self.tools.clone(),
            finish: self.finish.clone(),
        }
    }
}

/// Whether the value at `key` is a tool request with a non-empty name.
pub open spec fn tool_call_present(m: Map<Seq<char>, Value>, key: Seq<char>) -> bool {
    m.contains_key(key) && (m[key] matches Value::Object(o) && requested_name(o).len() > 0)
}

/// Whether the value at `key` is a non-empty array.
pub open spec fn validation_errors_present(m: Map<Seq<char>, Value>, key: Seq<char>) -> bool {
    m.contains_key(key) && (m[key] matches Value::Array(items) && items@.len() > 0)
}

/// Whether `m` holds a tool request at `key`.
pub fn has_tool_call(m: &StrMap<Value>, key: &str) -> (b: bool)
    ensures
        b == tool_call_present(m@, key@),
{
    match m.get(key) {
        Some(Value::Object(o)) => match o.get("name") {
            Some(Value::String(name)) => name.as_str().unicode_len() > 0,
            _ => false,
        },
        _ => false,
    }
}

/// Whether `m` holds validation errors at `key`.
pub fn has_validation_errors(m: &StrMap<Value>, key: &str) -> (b: bool)
    ensures
        b == validation_errors_present(m@, key@),
{
    match m.get(key) {
        Some(Value::Array(items)) => items.len() > 0,
        _ => false,
    }
}

/// `output` with a goto to `target` appended, unless it already interrupts
/// or routes.
pub open spec fn default_routed(output: NodeOutput, target: Seq<char>, r: NodeOutput) -> bool {
    &&& r.patch == output.patch
    &&& if !has_interrupt_spec(commands_view(output.commands@)) && all_targets(commands_view(output.commands@)).len()
        == 0 {
        commands_view(r.commands@) == commands_view(output.commands@).push(crate::runtime::CommandView::Goto(target))
    } else {
        r.commands@ == output.commands@
    }
}

/// Adds a goto to `target` to `output` unless it already interrupts or
/// routes.
pub fn route_by_default(output: NodeOutput, target: String) -> (r: NodeOutput)
    ensures
        default_routed(output, target@, r),
{
    let mut output = output;
    if !output.has_interrupt() {
        let targets = output.goto_targets();
        if targets.len() == 0 {
            let ghost before = output.commands@;
            output.commands.push(Command::Goto(target));
            proof {
                assert(commands_view(output.commands@) =~= commands_view(before).push(
                    crate::runtime::CommandView::Goto(target@),
                ));
            }
        }
    }
    output
}

/// Routes after the planner: to the tools when the state holds a tool
/// request, else to the finish.
pub struct PlannerRouter {
    pub tool_call_key: String,
    pub tools: String,
    pub finish: String,
}

impl PlannerRouter {
    /// The node to go to after the planner.
    pub fn next_node(&self, state: &State) -> (r: String)
        ensures
            r@ == if tool_call_present(state@, self.tool_call_key@) {
                self.tools@
            } else {
                self.finish@
            },
    {
        if has_tool_call(state, self.tool_call_key.as_str()) {
            self.tools.clone()
        } else {
            self.finish.clone()
        }
    }
}

impl RouteFn for PlannerRouter {
    /// One node: the tools when the state holds a tool request, else the
    /// finish.
    open spec fn routes(&self, state: Map<Seq<char>, Value>, context: Map<Seq<char>, Value>, r: Result<Vec<String>, String>) -> bool {
        r matches Ok(v) && v@.len() == 1 && v@[0]@ == (if tool_call_present(state, self.tool_call_key@) {
            self.tools@
        } else {
            self.finish@
        })
    }

    fn route(&self, state: &State, runtime_context: &RuntimeContext) -> (r: Result<Vec<String>, String>)
        ensures
            r matches Ok(v) && v@.len() == 1 && v@[0]@ == (if tool_call_present(state@, self.tool_call_key@) {
                self.tools@
            } else {
                self.finish@
            }),
    {
        let mut v = Vec::new();
        v.push(self.next_node(state));
        Ok(v)
    }
}

/// The router after the planner.
pub fn planner_router(tool_call_key: &str, tools: &str, finish: &str) -> (r: PlannerRouter)
    ensures
        r.tool_call_key@ == tool_call_key@,
        r.tools@ == tools@,
        r.finish@ == finish@,
{
    PlannerRouter { tool_call_key: owned(tool_call_key), tools: owned(tools), finish: owned(finish) }
}

/// Routes after validation: to the finish when issues were found, else to
/// the planner.
pub struct ValidationRouter {
    pub validation_key: String,
    pub planner: String,
    pub finish: String,
}

impl ValidationRouter {
    /// The node to go to after validation.
    pub fn next_node(&self, state: &State) -> (r: String)
        ensures
            r@ == if validation_errors_present(state@, self.validation_key@) {
                self.finish@
            } else {
                self.planner@
            },
    {
        if has_validation_errors(state, self.validation_key.as_str()) {
            self.finish.clone()
        } else {
            self.planner.clone()
        }
    }
}

impl RouteFn for ValidationRouter {
    /// One node: the finish when validation found issues, else the planner.
    open spec fn routes(&self, state: Map<Seq<char>, Value>, context: Map<Seq<char>, Value>, r: Result<Vec<String>, String>) -> bool {
        r matches Ok(v) && v@.len() == 1 && v@[0]@ == (if validation_errors_present(state, self.validation_key@) {
            self.finish@
        } else {
            self.planner@
        })
    }

    fn route(&self, state: &State, runtime_context: &RuntimeContext) -> (r: Result<Vec<String>, String>)
        ensures
            r matches Ok(v) && v@.len() == 1 && v@[0]@ == (if validation_errors_present(state@, self.validation_key@) {
                self.finish@
            } else {
                self.planner@
            }),
    {
        let mut v = Vec::new();
        v.push(self.next_node(state));
        Ok(v)
    }
}

/// The router after validation.
pub fn validation_router(validation_key: &str, planner: &str, finish: &str) -> (r: ValidationRouter)
    ensures
        r.validation_key@ == validation_key@,
        r.planner@ == planner@,
        r.finish@ == finish@,
{
    ValidationRouter { validation_key: owned(validation_key), planner: owned(planner), finish: owned(finish) }
}

/// The planner, followed by a default goto: to the tools when its patch
/// holds a tool request, else to the finish.
pub struct PlannerNode {
    pub planner: Slot<RuntimeNodeAction>,
    pub tool_call_key: String,
    pub tools: String,
    pub finish: String,
}

impl PlannerNode {
    /// Where the planner goes when it does not route itself: to the tools
    /// when its patch holds a tool request, else to the finish.
    pub open spec fn default_target(self, patch: Map<Seq<char>, Value>) -> Seq<char> {
        if tool_call_present(patch, self.tool_call_key@) {
            self.tools@
        } else {
            self.finish@
        }
    }

    /// The planner's `output` with its default route added.
    pub fn routed(&self, output: NodeOutput) -> (r: NodeOutput)
        ensures
            default_routed(
                output,
                if tool_call_present(output.patch@, self.tool_call_key@) {
                    self.tools@
                } else {
                    self.finish@
                },
                r,
            ),
    {
        let target = if has_tool_call(&output.patch, self.tool_call_key.as_str()) {
            self.tools.clone()
        } else {
            self.finish.clone()
        };
        route_by_default(output, target)
    }
}

impl RuntimeNodeFn for PlannerNode {
    /// The planner's output with its default route added, or the
    /// planner's failure.
    open spec fn outputs(&self, state: Map<Seq<char>, Value>, context: Map<Seq<char>, Value>, r: Result<NodeOutput, String>) -> bool {
        match r {
            Ok(out) => exists|planned: NodeOutput|
                #[trigger] self.planner.0.outputs(state, context, Ok(planned)) && default_routed(
                    planned,
                    self.default_target(out.patch@),
                    out,
                ),
            Err(e) => self.planner.0.outputs(state, context, Err(e)),
        }
    }

    /// Runs the planner, then adds its default route.
    fn run(&self, state: &State, runtime_context: &RuntimeContext) -> (r: Result<NodeOutput, String>)
        ensures
            r matches Ok(out) ==> exists|planned: NodeOutput|
                #[trigger] default_routed(planned, self.default_target(out.patch@), out),
    {
        let output = match self.planner.0.run(state, runtime_context) {
            Ok(output) => output,
            Err(reason) => return Err(reason),
        };
        let ghost planned = output;
        let out = self.routed(output);
        proof {
            assert(default_routed(planned, self.default_target(out.patch@), out));
        }
        let r = Ok(out);
        assert(r matches Ok(o) && default_routed(planned, self.default_target(o.patch@), o));
        r
    }
}

/// The planner with its default routing, as a node.
pub fn planner_with_default_routing(
    planner: Slot<RuntimeNodeAction>,
    tool_call_key: &str,
    tools: &str,
    finish: &str,
) -> (r: PlannerNode)
    ensures
        r.tool_call_key@ == tool_call_key@,
        r.tools@ == tools@,
        r.finish@ == finish@,
        r.planner == planner,
{
    PlannerNode { planner, tool_call_key: owned(tool_call_key), tools: owned(tools), finish: owned(finish) }
}

/// Validation, followed by a default goto: to the finish when it found
/// issues, else to the planner.
pub struct ValidationStep {
    pub validation: ValidationNode,
    pub validation_key: String,
    pub planner: String,
    pub finish: String,
}

impl ValidationStep {
    /// Validation's `output` with its default route added.
    pub fn routed(&self, output: NodeOutput) -> (r: NodeOutput)
        ensures
            default_routed(
                output,
                if validation_errors_present(output.patch@, self.validation_key@) {
                    self.finish@
                } else {
                    self.planner@
                },
                r,
            ),
    {
        let target = if has_validation_errors(&output.patch, self.validation_key.as_str()) {
            self.finish.clone()
        } else {
            self.planner.clone()
        };
        route_by_default(output, target)
    }
}

impl ValidationStep {
    /// A report of the issues the validation may find in `state`, and one
    /// goto: to the finish when there are issues, else to the planner.
    pub open spec fn stepped(self, state: Map<Seq<char>, Value>, out: NodeOutput) -> bool {
        &&& exists|issues: Seq<IssueView>|
            #[trigger] self.validation.node_finds(state, issues) && reports(
                self.validation.errors_key(),
                self.validation.report_key(),
                issues,
                out.patch,
            )
        &&& commands_view(out.commands@) == seq![
            crate::runtime::CommandView::Goto(
                if validation_errors_present(out.patch@, self.validation_key@) {
                    self.finish@
                } else {
                    self.planner@
                },
            ),
        ]
    }
}

impl RuntimeNodeFn for ValidationStep {
    /// Always a step as [`ValidationStep::stepped`] says.
    open spec fn outputs(&self, state: Map<Seq<char>, Value>, context: Map<Seq<char>, Value>, r: Result<NodeOutput, String>) -> bool {
        r matches Ok(out) && self.stepped(state, out)
    }

    /// Validates the state, reports the issues, and routes to the finish
    /// when there are issues, else to the planner.
    fn run(&self, state: &State, runtime_context: &RuntimeContext) -> (r: Result<NodeOutput, String>)
        ensures
            r matches Ok(out) && self.stepped(state@, out),
    {
        let output = self.validation.run(state);
        let out = self.routed(output);
        proof {
            assert(out.patch == output.patch);
            let issues = choose|issues: Seq<IssueView>|
                #[trigger] self.validation.node_finds(state@, issues) && reports(
                    self.validation.errors_key(),
                    self.validation.report_key(),
                    issues,
                    output.patch,
                );
            assert(reports(self.validation.errors_key(), self.validation.report_key(), issues, out.patch));
            assert(commands_view(out.commands@) == seq![
                crate::runtime::CommandView::Goto(
                    if validation_errors_present(out.patch@, self.validation_key@) {
                        self.finish@
                    } else {
                        self.planner@
                    },
                ),
            ]);
            assert(self.stepped(state@, out));
        }
        Ok(out)
    }
}

/// Validation with its default routing, as a node.
pub fn validation_with_default_routing(
    validation: ValidationNode,
    validation_key: &str,
    planner: &str,
    finish: &str,
) -> (r: ValidationStep)
    ensures
        r.validation == validation,
        r.validation_key@ == validation_key@,
        r.planner@ == planner@,
        r.finish@ == finish@,
{
    ValidationStep { validation, validation_key: owned(validation_key), planner: owned(planner), finish: owned(finish) }
}

/// A node that changes nothing.
pub struct NoopFinish;

impl StateNodeFn for NoopFinish {
    /// The empty patch.
    open spec fn yields(&self, state: Map<Seq<char>, Value>, r: Result<StatePatch, String>) -> bool {
        r matches Ok(p) && p@ == Map::<Seq<char>, Value>::empty()
    }

    fn run(&self, state: &State) -> (r: Result<StatePatch, String>)
        ensures
            r matches Ok(p) && p@ == Map::<Seq<char>, Value>::empty(),
    {
        Ok(StrMap::new())
    }
}

/// The finish node of an agent.
pub fn noop_finish_node() -> (r: NoopFinish) {
    NoopFinish
}

/// Why an agent with these node names cannot be built: the first name that
/// repeats an earlier one, in the order planner, tools, finish, validate.
pub open spec fn agent_names_fault(names: ReactNodeNames, validated: bool) -> Option<GraphErrorView> {
    if names.tools@ == names.planner@ {
        Some(GraphErrorView::DuplicateNode(names.tools@))
    } else if names.finish@ == names.planner@ || names.finish@ == names.tools@ {
        Some(GraphErrorView::DuplicateNode(names.finish@))
    } else if validated && (names.validate@ == names.planner@ || names.validate@ == names.tools@
        || names.validate@ == names.finish@) {
        Some(GraphErrorView::DuplicateNode(names.validate@))
    } else {
        None
    }
}

/// The names of the nodes of an agent: planner `p`, tools `t`, finish `f`,
/// and validation step `v` when there is one.
pub open spec fn agent_nodes(p: Seq<char>, t: Seq<char>, f: Seq<char>, v: Seq<char>, validated: bool) -> Set<Seq<char>> {
    let base = Set::<Seq<char>>::empty().insert(p).insert(t).insert(f);
    if validated {
        base.insert(v)
    } else {
        base
    }
}

/// The shape of a compiled agent with planner `p`, tools `t`, finish `f`
/// and validation step `v` (when `validated`): those nodes; one plain edge,
/// from the tools back to the planner; the planner routing to the tools or
/// the finish node, and the validation step routing to the planner or the
/// finish node; no reducers or channels; entry at the validation step when
/// there is one, else at the planner; finish at the finish node.
pub open spec fn agent_shape(
    g: CompiledGraph,
    p: Seq<char>,
    t: Seq<char>,
    f: Seq<char>,
    v: Seq<char>,
    validated: bool,
) -> bool {
    &&& g.nodes@.dom() == agent_nodes(p, t, f, v, validated)
    &&& g.adjacency@.dom() == Set::<Seq<char>>::empty().insert(t)
    &&& names_view(g.adjacency@[t]@) == Seq::<Seq<char>>::empty().push(p)
    &&& g.conditional_edges@.dom() == (if validated {
        Set::<Seq<char>>::empty().insert(p).insert(v)
    } else {
        Set::<Seq<char>>::empty().insert(p)
    })
    &&& names_view(g.conditional_edges@[p].targets@) == Seq::<Seq<char>>::empty().push(t).push(f)
    &&& validated ==> names_view(g.conditional_edges@[v].targets@) == Seq::<Seq<char>>::empty().push(p).push(f)
    &&& g.reducers@.dom() == Set::<Seq<char>>::empty()
    &&& g.channels@.dom() == Set::<Seq<char>>::empty()
    &&& g.entry_point@ == (if validated { v } else { p })
    &&& g.finish_point@ == f
}

pub struct ReactAgentBuilder {
    planner: Slot<RuntimeNodeAction>,
    tool_node: ToolNode,
    validator: Option<ValidationNode>,
    tool_call_key: String,
    node_names: ReactNodeNames,
}

impl ReactAgentBuilder {
    /// The node names the agent will have.
    pub closed spec fn names(self) -> ReactNodeNames {
        self.node_names
    }

    /// Whether the agent validates before planning.
    pub closed spec fn validated(self) -> bool {
        self.validator is Some
    }

    /// The key of the tool request.
    pub closed spec fn tool_call_key_view(self) -> Seq<char> {
        self.tool_call_key@
    }

    /// The planner the agent runs.
    pub closed spec fn planner_of(self) -> Slot<RuntimeNodeAction> {
        self.planner
    }

    /// The tool node the agent runs.
    pub closed spec fn tool_node_of(self) -> ToolNode {
        self.tool_node
    }

    /// The validation the agent runs first, if any.
    pub closed spec fn validator_of(self) -> Option<ValidationNode> {
        self.validator
    }

    /// An agent of `planner` and `tool_node`, with the default node names
    /// and `tool_call` as the request key.
    pub fn new(planner: RuntimeNodeAction, tool_node: ToolNode) -> (r: Self)
        ensures
            r.names().validate@ == "validate"@,
            r.names().planner@ == "planner"@,
            r.names().tools@ == "tools"@,
            r.names().finish@ == "finish"@,
            !r.validated(),
            r.tool_call_key_view() == "tool_call"@,
            r.planner_of().0 == planner,
            r.tool_node_of() == tool_node,
    {
        let ghost given = planner;
        let held = Slot(planner);
        assert(held.0 == given);
        ReactAgentBuilder {
            planner: held,
            tool_node,
            validator: None,
            tool_call_key: owned("tool_call"),
            node_names: ReactNodeNames::default(),
        }
    }

    /// An agent of the planner `held` and `tool_node`, with the default
    /// node names and `tool_call` as the request key.
    pub(crate) fn new_held(held: Slot<RuntimeNodeAction>, tool_node: ToolNode) -> (r: Self)
        ensures
            r.names().validate@ == "validate"@,
            r.names().planner@ == "planner"@,
            r.names().tools@ == "tools"@,
            r.names().finish@ == "finish"@,
            !r.validated(),
            r.tool_call_key_view() == "tool_call"@,
            r.planner_of() == held,
            r.tool_node_of() == tool_node,
    {
        ReactAgentBuilder {
            planner: held,
            tool_node,
            validator: None,
            tool_call_key: owned("tool_call"),
            node_names: ReactNodeNames::default(),
        }
    }

    /// This agent validating with `validator` before planning.
    pub fn with_validator(self, validator: ValidationNode) -> (r: Self)
        ensures
            r.names() == self.names(),
            r.validated(),
            r.tool_call_key_view() == self.tool_call_key_view(),
            r.validator_of() == Some(validator),
            r.planner_of() == self.planner_of(),
            r.tool_node_of() == self.tool_node_of(),
    {
        let mut r = self;
        r.validator = Some(validator);
        r
    }

    /// This agent reading tool requests from `key`.
    pub fn with_tool_call_key(self, key: &str) -> (r: Self)
        ensures
            r.names() == self.names(),
            r.validated() == self.validated(),
            r.tool_call_key_view() == key@,
            r.validator_of() == self.validator_of(),
            r.planner_of() == self.planner_of(),
            r.tool_node_of() == self.tool_node_of(),
    {
        let mut r = self;
        r.tool_call_key = owned(key);
        r
    }

    /// This agent with node names `names`.
    pub fn with_node_names(self, names: ReactNodeNames) -> (r: Self)
        ensures
            r.names() == names,
            r.validated() == self.validated(),
            r.tool_call_key_view() == self.tool_call_key_view(),
            r.validator_of() == self.validator_of(),
            r.planner_of() == self.planner_of(),
            r.tool_node_of() == self.tool_node_of(),
    {
        let mut r = self;
        r.node_names = names;
        r
    }

    /// Builds and compiles the agent graph.  It fails exactly when two of
    /// its nodes would share a name.
    pub fn build(self) -> (r: Result<CompiledGraph, GraphError>)
        ensures
            r is Ok <==> agent_names_fault(self.names(), self.validated()) is None,
            r matches Err(e) ==> Some(e@) == agent_names_fault(self.names(), self.validated()),
            r matches Ok(g) ==> agent_shape(
                g,
                self.names().planner@,
                self.names().tools@,
                self.names().finish@,
                self.names().validate@,
                self.validated(),
            ),
            r matches Ok(g) ==> agent_acts(g, self),
    {
        let ghost validated = self.validated();
        let ghost builder = self;
        let ReactAgentBuilder { planner, tool_node, validator, tool_call_key, node_names } = self;
        let names = node_names;
        let mut graph = StateGraph::new();
        let planner_node = planner_with_default_routing(
            planner,
            tool_call_key.as_str(),
            names.tools.as_str(),
            names.finish.as_str(),
        );
        let ghost pn = planner_node;
        let planner_action: RuntimeNodeAction = Box::new(planner_node);
        proof {
            assert forall|st: Map<Seq<char>, Value>, c: Map<Seq<char>, Value>, o: Result<NodeOutput, String>|
                #[trigger] planner_action.outputs(st, c, o) == pn.outputs(st, c, o) by {}
        }
        let ghost pa = planner_action;
        let planner_held = Slot(planner_action);
        assert(planner_held.0 == pa);
        let ghost p = names.planner@;
        let ghost t = names.tools@;
        let ghost f = names.finish@;
        let ghost v = names.validate@;
        match graph.add_held_runtime(names.planner.as_str(), planner_held) {
            Ok(()) => {},
            Err(e) => return Err(e),
        }
        let ghost tg = tool_node;
        let tools_action: RuntimeNodeAction = Box::new(tool_node);
        proof {
            assert forall|st: Map<Seq<char>, Value>, c: Map<Seq<char>, Value>, o: Result<NodeOutput, String>|
                #[trigger] tools_action.outputs(st, c, o) == served(tg, st, c, o) by {
                assert(tools_action.outputs(st, c, o) == tg.outputs(st, c, o));
            }
        }
        let ghost ta = tools_action;
        let tools_held = Slot(tools_action);
        assert(tools_held.0 == ta);
        match graph.add_held_runtime(names.tools.as_str(), tools_held) {
            Ok(()) => {},
            Err(e) => return Err(e),
        }
        let finish_node = noop_finish_node();
        let ghost fnode = finish_node;
        let finish_action: NodeAction = Box::new(finish_node);
        proof {
            assert forall|st: Map<Seq<char>, Value>, r: Result<StatePatch, String>|
                #[trigger] finish_action.yields(st, r) == fnode.yields(st, r) by {}
        }
        let ghost fa = finish_action;
        let finish_held = Slot(finish_action);
        assert(finish_held.0 == fa);
        match graph.add_held_node(names.finish.as_str(), finish_held) {
            Ok(()) => {},
            Err(e) => return Err(e),
        }
        let ghost empty_edges = graph.edge_list();
        let ghost empty_conds = graph.cond_list();
        let _ = graph.add_edge(names.tools.as_str(), names.planner.as_str());
        proof {
            assert(empty_edges =~= Seq::<(Seq<char>, Seq<char>)>::empty());
            assert(empty_conds =~= Seq::<(Seq<char>, Seq<Seq<char>>)>::empty());
            assert(graph.edge_list() =~= Seq::<(Seq<char>, Seq<char>)>::empty().push((t, p)));
        }
        let planner_routes = planner_router(tool_call_key.as_str(), names.tools.as_str(), names.finish.as_str());
        let ghost prt = planner_routes;
        let router: ConditionalRouteFn = Box::new(planner_routes);
        proof {
            assert forall|st: Map<Seq<char>, Value>, c: Map<Seq<char>, Value>, r: Result<Vec<String>, String>|
                #[trigger] router.routes(st, c, r) == prt.routes(st, c, r) by {}
        }
        let ghost ro = router;
        let router_held = Slot(router);
        assert(router_held.0 == ro);
        let planner_targets = [names.tools.as_str(), names.finish.as_str()];
        proof {
            assert(planner_targets@.map_values(|x: &str| x@) =~= Seq::<Seq<char>>::empty().push(t).push(f));
        }
        graph.add_held_conditional(names.planner.as_str(), &planner_targets, router_held);
        let entry: &str = match validator {
            Some(validation) => {
                let validation_key = owned(validation.output_key());
                let step_node = validation_with_default_routing(
                    validation,
                    validation_key.as_str(),
                    names.planner.as_str(),
                    names.finish.as_str(),
                );
                let ghost sn = step_node;
                let step: RuntimeNodeAction = Box::new(step_node);
                proof {
                    assert forall|st: Map<Seq<char>, Value>, c: Map<Seq<char>, Value>, o: Result<NodeOutput, String>|
                        #[trigger] step.outputs(st, c, o) == sn.outputs(st, c, o) by {}
                }
                let ghost sa = step;
                let step_held = Slot(step);
                assert(step_held.0 == sa);
                match graph.add_held_runtime(names.validate.as_str(), step_held) {
                    Ok(()) => {},
                    Err(e) => return Err(e),
                }
                let validation_routes = validation_router(
                    validation_key.as_str(),
                    names.planner.as_str(),
                    names.finish.as_str(),
                );
                let ghost vrt = validation_routes;
                let router: ConditionalRouteFn = Box::new(validation_routes);
                proof {
                    assert forall|st: Map<Seq<char>, Value>, c: Map<Seq<char>, Value>, r: Result<Vec<String>, String>|
                        #[trigger] router.routes(st, c, r) == vrt.routes(st, c, r) by {}
                }
                let ghost vro = router;
                let vrouter_held = Slot(router);
                assert(vrouter_held.0 == vro);
                let validate_targets = [names.planner.as_str(), names.finish.as_str()];
                proof {
                    assert(validate_targets@.map_values(|x: &str| x@) =~= Seq::<Seq<char>>::empty().push(p).push(f));
                }
                graph.add_held_conditional(names.validate.as_str(), &validate_targets, vrouter_held);
                proof {
                    let nm = graph.node_map();
                    let ce = graph.cond_edges();
                    assert(nm[v] is Runtime && (nm[v]->Runtime_0).0 == sa);
                    assert(ce.last().router == vro);
                    assert(sn.validation == builder.validator_of()->0);
                }
                names.validate.as_str()
            },
            None => names.planner.as_str(),
        };
        graph.set_entry_point(entry);
        graph.set_finish_point(names.finish.as_str());
        let ghost es = graph.edge_list();
        let ghost cs = graph.cond_list();
        proof {
            lemma_agent_compiles(
                graph.node_names(),
                graph.edge_list(),
                graph.cond_list(),
                names,
                validated,
            );
        }
        let ghost nm = graph.node_map();
        let ghost ce = graph.cond_edges();
        proof {
            assert(nm[p] is Runtime && (nm[p]->Runtime_0).0 == pa);
            assert(nm[t] is Runtime && (nm[t]->Runtime_0).0 == ta);
            assert(nm[f] is Plain && (nm[f]->Plain_0).0 == fa);
            assert(ce[0].router == ro);
        }
        let r = graph.compile();
        proof {
            if r is Ok {
                let g = r->Ok_0;
                lemma_agent_links(g, es, cs, names, validated);
                assert(g.nodes@ == nm);
                assert(cs[0].0 == p);
                assert(g.conditional_edges@[p] == ce[0]);
            }
        }
        r
    }
}

/// What the nodes and routers of an agent built from `b` do: the planner
/// node runs `b`'s planner and adds its default route; the tool node serves
/// requests as `b`'s tool node does; the finish node writes nothing; the
/// planner's router sends the run to the tools when the state holds a tool
/// request, else to the finish; and with a validator, the validation node
/// runs it with its default route, and its router sends the run to the
/// finish when the state holds validation errors, else to the planner.
pub open spec fn agent_acts(g: CompiledGraph, b: ReactAgentBuilder) -> bool {
    let n = b.names();
    let key = b.tool_call_key_view();
    &&& g.nodes@[n.planner@] is Runtime
    &&& exists|pn: PlannerNode|
        pn.planner == b.planner_of() && pn.tool_call_key@ == key && pn.tools@ == n.tools@ && pn.finish@ == n.finish@
            && forall|st: Map<Seq<char>, Value>, c: Map<Seq<char>, Value>, o: Result<NodeOutput, String>|
            #[trigger] (g.nodes@[n.planner@]->Runtime_0).0.outputs(st, c, o) == pn.outputs(st, c, o)
    &&& g.nodes@[n.tools@] is Runtime
    &&& forall|st: Map<Seq<char>, Value>, c: Map<Seq<char>, Value>, o: Result<NodeOutput, String>|
        #[trigger] (g.nodes@[n.tools@]->Runtime_0).0.outputs(st, c, o) == served(b.tool_node_of(), st, c, o)
    &&& g.nodes@[n.finish@] is Plain
    &&& forall|st: Map<Seq<char>, Value>, r: Result<StatePatch, String>|
        #[trigger] (g.nodes@[n.finish@]->Plain_0).0.yields(st, r) == (r matches Ok(p) && p@ == Map::<Seq<char>, Value>::empty())
    &&& exists|pr: PlannerRouter|
        pr.tool_call_key@ == key && pr.tools@ == n.tools@ && pr.finish@ == n.finish@ && forall|
            st: Map<Seq<char>, Value>,
            c: Map<Seq<char>, Value>,
            r: Result<Vec<String>, String>,
        | #[trigger] g.conditional_edges@[n.planner@].router.routes(st, c, r) == pr.routes(st, c, r)
    &&& b.validated() ==> {
        &&& g.nodes@[n.validate@] is Runtime
        &&& exists|vs: ValidationStep|
            vs.validation == b.validator_of()->0 && vs.validation_key@ == vs.validation.errors_key() && vs.planner@
                == n.planner@ && vs.finish@ == n.finish@ && forall|
                st: Map<Seq<char>, Value>,
                c: Map<Seq<char>, Value>,
                o: Result<NodeOutput, String>,
            | #[trigger] (g.nodes@[n.validate@]->Runtime_0).0.outputs(st, c, o) == vs.outputs(st, c, o)
        &&& exists|vr: ValidationRouter|
            vr.validation_key@ == (b.validator_of()->0).errors_key() && vr.planner@ == n.planner@ && vr.finish@
                == n.finish@ && forall|st: Map<Seq<char>, Value>, c: Map<Seq<char>, Value>, r: Result<Vec<String>, String>|
                #[trigger] g.conditional_edges@[n.validate@].router.routes(st, c, r) == vr.routes(st, c, r)
    }
}

/// An agent graph whose node names are distinct compiles.
proof fn lemma_agent_compiles(
    nodes: Set<Seq<char>>,
    edges: Seq<(Seq<char>, Seq<char>)>,
    conds: Seq<(Seq<char>, Seq<Seq<char>>)>,
    names: ReactNodeNames,
    validated: bool,
)
    requires
        agent_names_fault(names, validated) is None,
        nodes == (if validated {
            Set::<Seq<char>>::empty().insert(names.planner@).insert(names.tools@).insert(names.finish@).insert(
                names.validate@,
            )
        } else {
            Set::<Seq<char>>::empty().insert(names.planner@).insert(names.tools@).insert(names.finish@)
        }),
        edges == Seq::<(Seq<char>, Seq<char>)>::empty().push((names.tools@, names.planner@)),
        conds == (if validated {
            Seq::<(Seq<char>, Seq<Seq<char>>)>::empty().push(
                (names.planner@, Seq::<Seq<char>>::empty().push(names.tools@).push(names.finish@)),
            ).push((names.validate@, Seq::<Seq<char>>::empty().push(names.planner@).push(names.finish@)))
        } else {
            Seq::<(Seq<char>, Seq<Seq<char>>)>::empty().push(
                (names.planner@, Seq::<Seq<char>>::empty().push(names.tools@).push(names.finish@)),
            )
        }),
    ensures
        compile_verdict(
            nodes,
            edges,
            conds,
            Some(if validated { names.validate@ } else { names.planner@ }),
            Some(names.finish@),
        ) is None,
{
    let p = names.planner@;
    let t = names.tools@;
    let f = names.finish@;
    let v = names.validate@;
    let e = if validated { v } else { p };
    assert(crate::graph::first_bad_edge(edges, nodes, 1) is None);
    assert(crate::graph::first_bad_edge(edges, nodes, 0) is None);
    assert(crate::graph::first_bad_target(Seq::<Seq<char>>::empty().push(t).push(f), nodes, 2) is None);
    assert(crate::graph::first_bad_target(Seq::<Seq<char>>::empty().push(t).push(f), nodes, 1) is None);
    assert(crate::graph::first_bad_target(Seq::<Seq<char>>::empty().push(t).push(f), nodes, 0) is None);
    assert(crate::graph::first_bad_target(Seq::<Seq<char>>::empty().push(p).push(f), nodes, 2) is None);
    assert(crate::graph::first_bad_target(Seq::<Seq<char>>::empty().push(p).push(f), nodes, 1) is None);
    assert(crate::graph::first_bad_target(Seq::<Seq<char>>::empty().push(p).push(f), nodes, 0) is None);
    assert(conds[0].1 == Seq::<Seq<char>>::empty().push(t).push(f));
    if validated {
        assert(conds[1].1 == Seq::<Seq<char>>::empty().push(p).push(f));
        assert(crate::graph::first_cond_fault(conds, nodes, 2) is None);
        assert(crate::graph::cond_fault(conds, nodes, 1) is None);
        assert(crate::graph::first_cond_fault(conds, nodes, 1) is None);
    } else {
        assert(crate::graph::first_cond_fault(conds, nodes, 1) is None);
    }
    assert(crate::graph::cond_fault(conds, nodes, 0) is None);
    assert(crate::graph::first_cond_fault(conds, nodes, 0) is None);
    assert(!crate::graph::has_outgoing(edges, conds, f));
    assert(conds[0].1.contains(f)) by {
        assert(conds[0].1[1] == f);
    }
    let path = if validated { seq![v, p, f] } else { Seq::<Seq<char>>::empty().push(p).push(f) };
    assert(has_edge(edges, conds, p, f));
    if validated {
        assert(conds[1].1.contains(p)) by {
            assert(conds[1].1[0] == p);
        }
        assert(has_edge(edges, conds, v, p));
    }
    assert(is_path(edges, conds, path));
    assert(path[0] == e && path.last() == f);
    assert(reachable(edges, conds, e, f));
}

/// The links of a compiled agent graph, from those of the graph it was
/// compiled from.
proof fn lemma_agent_links(
    g: CompiledGraph,
    edges: Seq<(Seq<char>, Seq<char>)>,
    conds: Seq<(Seq<char>, Seq<Seq<char>>)>,
    names: ReactNodeNames,
    validated: bool,
)
    requires
        agent_names_fault(names, validated) is None,
        edges == Seq::<(Seq<char>, Seq<char>)>::empty().push((names.tools@, names.planner@)),
        conds == (if validated {
            Seq::<(Seq<char>, Seq<Seq<char>>)>::empty().push(
                (names.planner@, Seq::<Seq<char>>::empty().push(names.tools@).push(names.finish@)),
            ).push((names.validate@, Seq::<Seq<char>>::empty().push(names.planner@).push(names.finish@)))
        } else {
            Seq::<(Seq<char>, Seq<Seq<char>>)>::empty().push(
                (names.planner@, Seq::<Seq<char>>::empty().push(names.tools@).push(names.finish@)),
            )
        }),
        forall|u: Seq<char>| #[trigger] g.adjacency@.contains_key(u) <==> is_edge_source(edges, u),
        forall|u: Seq<char>| #[trigger] g.adjacency@.contains_key(u) ==> names_view(g.adjacency@[u]@) == edge_targets(edges, u),
        forall|u: Seq<char>| #[trigger] g.conditional_edges@.contains_key(u) <==> is_cond_source(conds, u),
        forall|i: int| 0 <= i < conds.len() ==> names_view(g.conditional_edges@[#[trigger] conds[i].0].targets@) == conds[i].1,
    ensures
        g.adjacency@.dom() == Set::<Seq<char>>::empty().insert(names.tools@),
        names_view(g.adjacency@[names.tools@]@) == Seq::<Seq<char>>::empty().push(names.planner@),
        g.conditional_edges@.dom() == (if validated {
            Set::<Seq<char>>::empty().insert(names.planner@).insert(names.validate@)
        } else {
            Set::<Seq<char>>::empty().insert(names.planner@)
        }),
        names_view(g.conditional_edges@[names.planner@].targets@) == Seq::<Seq<char>>::empty().push(
            names.tools@,
        ).push(names.finish@),
        validated ==> names_view(g.conditional_edges@[names.validate@].targets@) == Seq::<Seq<char>>::empty().push(
            names.planner@,
        ).push(names.finish@),
{
    let p = names.planner@;
    let t = names.tools@;
    let v = names.validate@;
    let adj = Set::<Seq<char>>::empty().insert(t);
    assert forall|u: Seq<char>| g.adjacency@.dom().contains(u) <==> adj.contains(u) by {
        if g.adjacency@.contains_key(u) {
            assert(is_edge_source(edges, u));
        }
        if u == t {
            assert(edges[0].0 == t);
            assert(is_edge_source(edges, u));
            assert(g.adjacency@.contains_key(u));
        }
    }
    assert(g.adjacency@.dom() =~= adj);
    assert(g.adjacency@.contains_key(t));
    reveal_with_fuel(edge_targets, 2);
    assert(edges.drop_last() =~= Seq::<(Seq<char>, Seq<char>)>::empty());
    assert(edge_targets(edges, t) =~= Seq::<Seq<char>>::empty().push(p));
    let srcs = if validated {
        Set::<Seq<char>>::empty().insert(p).insert(v)
    } else {
        Set::<Seq<char>>::empty().insert(p)
    };
    assert forall|u: Seq<char>| g.conditional_edges@.dom().contains(u) <==> srcs.contains(u) by {
        if g.conditional_edges@.contains_key(u) {
            assert(is_cond_source(conds, u));
            let c = choose|c: int| 0 <= c < conds.len() && (#[trigger] conds[c]).0 == u;
            assert(c == 0 || (validated && c == 1));
        }
        if u == p {
            assert(conds[0].0 == p);
            assert(is_cond_source(conds, u));
            assert(g.conditional_edges@.contains_key(u));
        }
        if validated && u == v {
            assert(conds[1].0 == v);
            assert(is_cond_source(conds, u));
            assert(g.conditional_edges@.contains_key(u));
        }
    }
    assert(g.conditional_edges@.dom() =~= srcs);
    assert(conds[0].0 == p);
    if validated {
        assert(conds[1].0 == v);
    }
}

/// Builds the agent of `planner` and `tool_node` with the defaults.
pub fn build_react_agent(planner: RuntimeNodeAction, tool_node: ToolNode) -> (r: Result<CompiledGraph, GraphError>)
    ensures
        r is Ok,
        r matches Ok(g) ==> agent_shape(g, "planner"@, "tools"@, "finish"@, "validate"@, false),
{
    let builder = ReactAgentBuilder::new(planner, tool_node);
    proof {
        reveal_strlit("planner");
        reveal_strlit("tools");
        reveal_strlit("finish");
        assert("tools"@[0] != "planner"@[0]);
        assert("finish"@[0] != "planner"@[0]);
        assert("finish"@[0] != "tools"@[0]);
    }
    builder.build()
}

} // verus!
