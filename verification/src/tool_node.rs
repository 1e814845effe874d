//! A node that calls a registered tool named by a request in the state.
//!
//! The request is an object at the request key with a non-empty string
//! `name` and an optional `input`.  The name is first mapped through the
//! aliases; an unknown name may fall back to a default tool.  The tool's
//! value is written under the result key, with the error key cleared; a
//! failure is written under the error key or returned as the node's error,
//! as the error strategy says.
use vstd::prelude::*;
use crate::channel::Slot;
use crate::graph::{RuntimeNodeAction, RuntimeNodeFn};
use crate::json::{Json, StrMap, Value};
use crate::runtime::{NodeOutput, RuntimeContext};
use crate::state::{json_map, State};
use crate::text::{concat, concat3, owned};

verus! {

/// A tool: computes a value from its input and the runtime context.
pub trait Tool {
    /// What a tool may give back for `input` in `context`.  A tool that
    /// does not say more promises nothing.
    open spec fn gives(&self, input: Json, context: Map<Seq<char>, Value>, r: Result<Value, String>) -> bool {
        true
    }

    fn call(&self, input: &Value, runtime_context: &RuntimeContext) -> (r: Result<Value, String>)
        ensures
            self.gives(input@, runtime_context@, r),
    ;
}

pub type ToolFn = Box<dyn Tool>;

/// A registered tool, as a tool node stores it.
pub type ToolEntry = Slot<ToolFn>;

#[derive(Debug, Clone, Copy, PartialEq, Eq, Structural)]
pub enum ToolRoutingStrategy {
    Strict,
    FallbackToDefault,
}

#[derive(Debug, Clone, Copy, PartialEq, Eq, Structural)]
pub enum ToolErrorStrategy {
    WriteToState,
    ReturnNodeError,
}

/// A call about to be made: the name asked for, the tool it resolved to,
/// and the input.
#[derive(Debug, PartialEq)]
pub struct ToolInvocation {
    pub requested_tool: String,
    pub resolved_tool: String,
    pub input: Value,
}

/// Decides whether an invocation may go ahead.
pub trait ToolAudit {
    /// What the audit may answer for a call of `resolved` (asked for as
    /// `requested`) with `input` in `context`.  An audit that does not say
    /// more promises nothing.
    open spec fn answers(
        &self,
        requested: Seq<char>,
        resolved: Seq<char>,
        input: Json,
        context: Map<Seq<char>, Value>,
        r: Result<(), String>,
    ) -> bool {
        true
    }

    fn check(&self, invocation: &ToolInvocation, runtime_context: &RuntimeContext) -> (r: Result<(), String>)
        ensures
            self.answers(
                invocation.requested_tool@,
                invocation.resolved_tool@,
                invocation.input@,
                runtime_context@,
                r,
            ),
    ;
}

pub type ToolAuditHook = Box<dyn ToolAudit>;

pub struct ToolNode {
    tools: StrMap<ToolEntry>,
    aliases: StrMap<String>,
    default_tool: Option<String>,
    routing_strategy: ToolRoutingStrategy,
    error_strategy: ToolErrorStrategy,
    audit_hook: Option<Slot<ToolAuditHook>>,
    request_key: String,
    result_key: String,
    error_key: String,
}

/// What a tool node is configured with.
pub struct ToolNodeView {
    pub tools: Set<Seq<char>>,
    pub aliases: Map<Seq<char>, Seq<char>>,
    pub default_tool: Option<Seq<char>>,
    pub routing_strategy: ToolRoutingStrategy,
    pub error_strategy: ToolErrorStrategy,
    pub audited: bool,
    pub request_key: Seq<char>,
    pub result_key: Seq<char>,
    pub error_key: Seq<char>,
}

impl View for ToolNode {
    type V = ToolNodeView;

    closed spec fn view(&self) -> ToolNodeView {
        ToolNodeView {
            tools: self.tools@.dom(),
            aliases: self.aliases@.map_values(|s: String| s@),
            default_tool: match self.default_tool {
                Some(d) => Some(d@),
                None => None,
            },
            routing_strategy: self.routing_strategy,
            error_strategy: self.error_strategy,
            audited: self.audit_hook is Some,
            request_key: self.request_key@,
            result_key: self.result_key@,
            error_key: self.error_key@,
        }
    }
}

/// The name of the tool a request object asks for; empty when it has none.
pub open spec fn requested_name(m: StrMap<Value>) -> Seq<char> {
    if m@.contains_key("name"@) && m@["name"@] is String {
        (m@["name"@]->String_0)@
    } else {
        Seq::empty()
    }
}

/// The input of a request object; null when it has none.
pub open spec fn requested_input(m: StrMap<Value>) -> Json {
    if m@.contains_key("input"@) {
        m@["input"@]@
    } else {
        Json::Null
    }
}

/// The message when the audit refuses a call for `reason`.
pub open spec fn audit_rejected(reason: Seq<char>) -> Seq<char> {
    "tool audit rejected invocation: "@ + reason
}

/// How the node ends once tool `t` is called with `input`: the tool gives
/// some answer it may give, and its value or its error ends the node.
pub open spec fn called(node: ToolNode, t: Seq<char>, input: Json, context: Map<Seq<char>, Value>, r: Result<NodeOutput, String>) -> bool {
    exists|answer: Result<Value, String>| #[trigger] node.tool_gives(t, input, context, answer) && match answer {
        Ok(value) => success_outcome(node@, value@, r),
        Err(reason) => error_outcome(node@, reason@, r),
    }
}

/// How `node` ends on `state` in `context`: a malformed request, or a name
/// that resolves to no tool, fails with its message.  Otherwise the audit,
/// if there is one, is asked about the call (the name asked for, the tool
/// it resolved to, and the request's input); a refusal fails with
/// [`audit_rejected`].  Then the resolved tool is called with the request's
/// input.
pub open spec fn served(node: ToolNode, state: Map<Seq<char>, Value>, context: Map<Seq<char>, Value>, r: Result<NodeOutput, String>) -> bool {
    let v = node@;
    match request_fault(state, v.request_key) {
        Some(msg) => error_outcome(v, msg, r),
        None => state[v.request_key] matches Value::Object(m) && match resolved_tool(v, requested_name(m)) {
            None => error_outcome(v, not_registered(requested_name(m)), r),
            Some(t) => if v.audited {
                exists|verdict: Result<(), String>| #[trigger] node.audit_answers(
                    requested_name(m),
                    t,
                    requested_input(m),
                    context,
                    verdict,
                ) && match verdict {
                    Err(reason) => error_outcome(v, audit_rejected(reason@), r),
                    Ok(()) => called(node, t, requested_input(m), context, r),
                }
            } else {
                called(node, t, requested_input(m), context, r)
            },
        },
    }
}

/// Why the request at `key` in `state` cannot be served, if it cannot.
pub open spec fn request_fault(state: Map<Seq<char>, Value>, key: Seq<char>) -> Option<Seq<char>> {
    if !state.contains_key(key) {
        Some("missing tool request at key `"@ + key + "`"@)
    } else {
        match state[key] {
            Value::Object(m) => if requested_name(m).len() == 0 {
                Some("tool request is missing non-empty `name`"@)
            } else {
                None
            },
            _ => Some("tool request `"@ + key + "` must be a JSON object"@),
        }
    }
}

/// The tool a name resolves to: the name after aliasing if registered,
/// else the default tool when falling back to it and it is registered.
pub open spec fn resolved_tool(v: ToolNodeView, requested: Seq<char>) -> Option<Seq<char>> {
    let aliased = if v.aliases.contains_key(requested) {
        v.aliases[requested]
    } else {
        requested
    };
    if v.tools.contains(aliased) {
        Some(aliased)
    } else if v.routing_strategy == ToolRoutingStrategy::FallbackToDefault && v.default_tool is Some
        && v.tools.contains(v.default_tool->0) {
        Some(v.default_tool->0)
    } else {
        None
    }
}

/// The name a request asks for, after the node's aliases.
pub open spec fn alias_target(v: ToolNodeView, requested: Seq<char>) -> Seq<char> {
    if v.aliases.contains_key(requested) {
        v.aliases[requested]
    } else {
        requested
    }
}

/// A name that, after aliasing, names a registered tool is served by that
/// tool, whatever the routing strategy: the default tool stands in only for
/// names that name no registered tool, and only when the node falls back to
/// a default that is registered.  Every tool a name resolves to is
/// registered.  An unaudited node whose well-formed request names a
/// registered tool ends exactly as a call of that tool with the request's
/// input ends.
pub proof fn law_registered_tool_is_called(
    node: ToolNode,
    requested: Seq<char>,
    state: Map<Seq<char>, Value>,
    context: Map<Seq<char>, Value>,
    r: Result<NodeOutput, String>,
)
    ensures
        node@.tools.contains(alias_target(node@, requested)) ==> resolved_tool(node@, requested) == Some(
            alias_target(node@, requested),
        ),
        resolved_tool(node@, requested) matches Some(t) ==> node@.tools.contains(t) && (t == alias_target(
            node@,
            requested,
        ) || (!node@.tools.contains(alias_target(node@, requested)) && node@.routing_strategy
            == ToolRoutingStrategy::FallbackToDefault && node@.default_tool == Some(t))),
        !node@.tools.contains(alias_target(node@, requested)) && node@.routing_strategy
            != ToolRoutingStrategy::FallbackToDefault ==> resolved_tool(node@, requested) is None,
        state[node@.request_key] matches Value::Object(m) ==> (request_fault(state, node@.request_key) is None
            && !node@.audited && node@.tools.contains(alias_target(node@, requested_name(m))) ==> (served(
            node,
            state,
            context,
            r,
        ) <==> called(node, alias_target(node@, requested_name(m)), requested_input(m), context, r))),
{
}

/// The message for a name that resolves to no tool.
pub open spec fn not_registered(name: Seq<char>) -> Seq<char> {
    "tool `"@ + name + "` is not registered"@
}

/// How a failure with `reason` ends the node: written under the error key,
/// or returned as the node's error.
pub open spec fn error_outcome(v: ToolNodeView, reason: Seq<char>, r: Result<NodeOutput, String>) -> bool {
    match v.error_strategy {
        ToolErrorStrategy::WriteToState => r matches Ok(out) && out.commands@.len() == 0 && json_map(out.patch)
            == Map::<Seq<char>, Json>::empty().insert(v.error_key, Json::Text(reason)),
        ToolErrorStrategy::ReturnNodeError => r matches Err(s) && s@ == reason,
    }
}

/// How a tool's `value` ends the node: written under the result key, with
/// the error key set to null.
pub open spec fn success_outcome(v: ToolNodeView, value: Json, r: Result<NodeOutput, String>) -> bool {
    r matches Ok(out) && out.commands@.len() == 0 && json_map(out.patch) == Map::<Seq<char>, Json>::empty().insert(
        v.result_key,
        value,
    ).insert(v.error_key, Json::Null)
}

impl ToolNode {
    /// What the tool registered as `name` may give for `input` in `context`.
    pub closed spec fn tool_gives(self, name: Seq<char>, input: Json, context: Map<Seq<char>, Value>, r: Result<Value, String>) -> bool {
        self.tools@[name].0.gives(input, context, r)
    }

    /// What the audit may answer about a call.
    pub closed spec fn audit_answers(
        self,
        requested: Seq<char>,
        resolved: Seq<char>,
        input: Json,
        context: Map<Seq<char>, Value>,
        r: Result<(), String>,
    ) -> bool {
        match self.audit_hook {
            Some(hook) => hook.0.answers(requested, resolved, input, context, r),
            None => true,
        }
    }

    /// A node without tools: strict routing, failures written to the
    /// state, keys `tool_call`, `tool_result` and `tool_error`.
    pub fn new() -> (r: Self)
        ensures
            r@.tools == Set::<Seq<char>>::empty(),
            r@.aliases == Map::<Seq<char>, Seq<char>>::empty(),
            r@.default_tool is None,
            r@.routing_strategy == ToolRoutingStrategy::Strict,
            r@.error_strategy == ToolErrorStrategy::WriteToState,
            !r@.audited,
            r@.request_key == "tool_call"@,
            r@.result_key == "tool_result"@,
            r@.error_key == "tool_error"@,
    {
        let r = ToolNode {
            tools: StrMap::new(),
            aliases: StrMap::new(),
            default_tool: None,
            routing_strategy: ToolRoutingStrategy::Strict,
            error_strategy: ToolErrorStrategy::WriteToState,
            audit_hook: None,
            request_key: owned("tool_call"),
            result_key: owned("tool_result"),
            error_key: owned("tool_error"),
        };
        proof {
            assert(r@.tools =~= Set::<Seq<char>>::empty());
            assert(r@.aliases =~= Map::<Seq<char>, Seq<char>>::empty());
        }
        r
    }

    /// This node reading its request from `key`.
    pub fn with_request_key(self, key: &str) -> (r: Self)
        ensures
            r@ == (ToolNodeView { request_key: key@, ..self@ }),
            forall|t: Seq<char>, i: Json, c: Map<Seq<char>, Value>, a: Result<Value, String>|
                #[trigger] r.tool_gives(t, i, c, a) == self.tool_gives(t, i, c, a),
            forall|q: Seq<char>, t: Seq<char>, i: Json, c: Map<Seq<char>, Value>, a: Result<(), String>|
                #[trigger] r.audit_answers(q, t, i, c, a) == self.audit_answers(q, t, i, c, a),
    {
        let mut r = self;
        r.request_key = owned(key);
        r
    }

    /// This node writing tool values under `key`.
    pub fn with_result_key(self, key: &str) -> (r: Self)
        ensures
            r@ == (ToolNodeView { result_key: key@, ..self@ }),
            forall|t: Seq<char>, i: Json, c: Map<Seq<char>, Value>, a: Result<Value, String>|
                #[trigger] r.tool_gives(t, i, c, a) == self.tool_gives(t, i, c, a),
            forall|q: Seq<char>, t: Seq<char>, i: Json, c: Map<Seq<char>, Value>, a: Result<(), String>|
                #[trigger] r.audit_answers(q, t, i, c, a) == self.audit_answers(q, t, i, c, a),
    {
        let mut r = self;
        r.result_key = owned(key);
        r
    }

    /// This node writing failures under `key`.
    pub fn with_error_key(self, key: &str) -> (r: Self)
        ensures
            r@ == (ToolNodeView { error_key: key@, ..self@ }),
            forall|t: Seq<char>, i: Json, c: Map<Seq<char>, Value>, a: Result<Value, String>|
                #[trigger] r.tool_gives(t, i, c, a) == self.tool_gives(t, i, c, a),
            forall|q: Seq<char>, t: Seq<char>, i: Json, c: Map<Seq<char>, Value>, a: Result<(), String>|
                #[trigger] r.audit_answers(q, t, i, c, a) == self.audit_answers(q, t, i, c, a),
    {
        let mut r = self;
        r.error_key = owned(key);
        r
    }

    /// This node routing unknown names as `strategy` says.
    pub fn with_routing_strategy(self, strategy: ToolRoutingStrategy) -> (r: Self)
        ensures
            r@ == (ToolNodeView { routing_strategy: strategy, ..self@ }),
            forall|t: Seq<char>, i: Json, c: Map<Seq<char>, Value>, a: Result<Value, String>|
                #[trigger] r.tool_gives(t, i, c, a) == self.tool_gives(t, i, c, a),
            forall|q: Seq<char>, t: Seq<char>, i: Json, c: Map<Seq<char>, Value>, a: Result<(), String>|
                #[trigger] r.audit_answers(q, t, i, c, a) == self.audit_answers(q, t, i, c, a),
    {
        let mut r = self;
        r.routing_strategy = strategy;
        r
    }

    /// This node ending failures as `strategy` says.
    pub fn with_error_strategy(self, strategy: ToolErrorStrategy) -> (r: Self)
        ensures
            r@ == (ToolNodeView { error_strategy: strategy, ..self@ }),
            forall|t: Seq<char>, i: Json, c: Map<Seq<char>, Value>, a: Result<Value, String>|
                #[trigger] r.tool_gives(t, i, c, a) == self.tool_gives(t, i, c, a),
            forall|q: Seq<char>, t: Seq<char>, i: Json, c: Map<Seq<char>, Value>, a: Result<(), String>|
                #[trigger] r.audit_answers(q, t, i, c, a) == self.audit_answers(q, t, i, c, a),
    {
        let mut r = self;
        r.error_strategy = strategy;
        r
    }

    /// This node falling back to `tool_name`.
    pub fn with_default_tool(self, tool_name: &str) -> (r: Self)
        ensures
            r@ == (ToolNodeView { default_tool: Some(tool_name@), ..self@ }),
            forall|t: Seq<char>, i: Json, c: Map<Seq<char>, Value>, a: Result<Value, String>|
                #[trigger] r.tool_gives(t, i, c, a) == self.tool_gives(t, i, c, a),
            forall|q: Seq<char>, t: Seq<char>, i: Json, c: Map<Seq<char>, Value>, a: Result<(), String>|
                #[trigger] r.audit_answers(q, t, i, c, a) == self.audit_answers(q, t, i, c, a),
    {
        let mut r = self;
        r.default_tool = Some(owned(tool_name));
        r
    }

    /// This node asking `hook` before each call.
    pub fn with_audit_hook(self, hook: ToolAuditHook) -> (r: Self)
        ensures
            r@ == (ToolNodeView { audited: true, ..self@ }),
            forall|t: Seq<char>, i: Json, c: Map<Seq<char>, Value>, a: Result<Value, String>|
                #[trigger] r.tool_gives(t, i, c, a) == self.tool_gives(t, i, c, a),
            forall|q: Seq<char>, t: Seq<char>, i: Json, c: Map<Seq<char>, Value>, a: Result<(), String>|
                #[trigger] r.audit_answers(q, t, i, c, a) == hook.answers(q, t, i, c, a),
    {
        let ghost given = hook;
        let held = Slot(hook);
        assert(held.0 == given);
        let mut r = self;
        r.audit_hook = Some(held);
        r
    }

    fn store_tool(&mut self, name: &str, entry: ToolEntry)
        ensures
            final(self)@ == (ToolNodeView { tools: old(self)@.tools.insert(name@), ..old(self)@ }),
            forall|i: Json, c: Map<Seq<char>, Value>, a: Result<Value, String>|
                #[trigger] final(self).tool_gives(name@, i, c, a) == entry.0.gives(i, c, a),
            forall|t: Seq<char>, i: Json, c: Map<Seq<char>, Value>, a: Result<Value, String>|
                t != name@ ==> #[trigger] final(self).tool_gives(t, i, c, a) == old(self).tool_gives(t, i, c, a),
            forall|q: Seq<char>, t: Seq<char>, i: Json, c: Map<Seq<char>, Value>, a: Result<(), String>|
                #[trigger] final(self).audit_answers(q, t, i, c, a) == old(self).audit_answers(q, t, i, c, a),
    {
        self.tools.insert(owned(name), entry);
    }

    /// Registers `tool` under `name`, replacing a tool of that name.
    pub fn add_tool(&mut self, name: &str, tool: ToolFn)
        ensures
            final(self)@ == (ToolNodeView { tools: old(self)@.tools.insert(name@), ..old(self)@ }),
            forall|i: Json, c: Map<Seq<char>, Value>, a: Result<Value, String>|
                #[trigger] final(self).tool_gives(name@, i, c, a) == tool.gives(i, c, a),
            forall|t: Seq<char>, i: Json, c: Map<Seq<char>, Value>, a: Result<Value, String>|
                t != name@ ==> #[trigger] final(self).tool_gives(t, i, c, a) == old(self).tool_gives(t, i, c, a),
            forall|q: Seq<char>, t: Seq<char>, i: Json, c: Map<Seq<char>, Value>, a: Result<(), String>|
                #[trigger] final(self).audit_answers(q, t, i, c, a) == old(self).audit_answers(q, t, i, c, a),
    {
        let ghost given = tool;
        let entry = Slot(tool);
        assert(entry.0 == given);
        self.store_tool(name, entry);
    }

    /// Makes `alias` stand for `target_tool`.
    pub fn add_alias(&mut self, alias: &str, target_tool: &str)
        ensures
            final(self)@ == (ToolNodeView { aliases: old(self)@.aliases.insert(alias@, target_tool@), ..old(self)@ }),
    {
        self.aliases.insert(owned(alias), owned(target_tool));
        proof {
            assert(final(self)@.aliases =~= old(self)@.aliases.insert(alias@, target_tool@));
        }
    }

    /// Ends the node with a failure, as the error strategy says.
    fn handle_error(&self, reason: String) -> (r: Result<NodeOutput, String>)
        ensures
            error_outcome(self@, reason@, r),
    {
        match self.error_strategy {
            ToolErrorStrategy::WriteToState => {
                let mut patch = StrMap::new();
                patch.insert(self.error_key.clone(), Value::String(reason));
                proof {
                    assert(json_map(patch) =~= Map::<Seq<char>, Json>::empty().insert(self@.error_key, Json::Text(reason@)));
                }
                Ok(NodeOutput::from_patch(patch))
            },
            ToolErrorStrategy::ReturnNodeError => Err(reason),
        }
    }

    /// The tool name and input of the request in `state`.
    fn parse_tool_request(&self, state: &State) -> (r: Result<(String, Value), String>)
        ensures
            match request_fault(state@, self@.request_key) {
                Some(msg) => r matches Err(e) && e@ == msg,
                None => r matches Ok(parts) && (state@[self@.request_key] matches Value::Object(m) && parts.0@
                    == requested_name(m) && parts.1@ == requested_input(m)),
            },
    {
        let tool_call = match state.get(self.request_key.as_str()) {
            Some(v) => v,
            None => return Err(concat3("missing tool request at key `", self.request_key.as_str(), "`")),
        };
        let call_obj = match tool_call.as_object() {
            Some(m) => m,
            None => return Err(concat3("tool request `", self.request_key.as_str(), "` must be a JSON object")),
        };
        let name: String = match call_obj.get("name") {
            Some(Value::String(s)) => s.clone(),
            _ => String::new(),
        };
        if name.as_str().unicode_len() == 0 {
            return Err(owned("tool request is missing non-empty `name`"));
        }
        let input = match call_obj.get("input") {
            Some(v) => v.copy(),
            None => Value::Null,
        };
        Ok((name, input))
    }

    /// The tool that `requested_tool` resolves to.
    fn resolve_tool_name(&self, requested_tool: &str) -> (r: Result<String, String>)
        ensures
            match resolved_tool(self@, requested_tool@) {
                Some(t) => r matches Ok(s) && s@ == t,
                None => r matches Err(e) && e@ == not_registered(requested_tool@),
            },
    {
        let aliased: String = match self.aliases.get(requested_tool) {
            Some(target) => target.clone(),
            None => owned(requested_tool),
        };
        if self.tools.contains_key(aliased.as_str()) {
            return Ok(aliased);
        }
        if self.routing_strategy == ToolRoutingStrategy::FallbackToDefault {
            if let Some(default_tool) = &self.default_tool {
                if self.tools.contains_key(default_tool.as_str()) {
                    return Ok(default_tool.clone());
                }
            }
        }
        Err(concat3("tool `", requested_tool, "` is not registered"))
    }

    /// How the node ends once its tool has given `outcome`.
    pub fn finish_invocation(&self, outcome: Result<Value, String>) -> (r: Result<NodeOutput, String>)
        ensures
            match outcome {
                Ok(v) => success_outcome(self@, v@, r),
                Err(reason) => error_outcome(self@, reason@, r),
            },
    {
        match outcome {
            Ok(value) => {
                let ghost vj = value@;
                let mut patch = StrMap::new();
                patch.insert(self.result_key.clone(), value);
                patch.insert(self.error_key.clone(), Value::Null);
                proof {
                    assert(json_map(patch) =~= Map::<Seq<char>, Json>::empty().insert(self@.result_key, vj).insert(
                        self@.error_key,
                        Json::Null,
                    ));
                }
                Ok(NodeOutput::from_patch(patch))
            },
            Err(reason) => self.handle_error(reason),
        }
    }

    /// Serves the request in `state`: a malformed request or an unknown
    /// tool is a failure; otherwise the audit (if any) is asked, then the
    /// tool is called.
    pub fn run(&self, state: &State, runtime_context: &RuntimeContext) -> (r: Result<NodeOutput, String>)
        ensures
            served(*self, state@, runtime_context@, r),
    {
        let (requested_tool, tool_input) = match self.parse_tool_request(state) {
            Ok(parts) => parts,
            Err(reason) => return self.handle_error(reason),
        };
        let resolved = match self.resolve_tool_name(requested_tool.as_str()) {
            Ok(name) => name,
            Err(reason) => return self.handle_error(reason),
        };
        let ghost req = requested_tool@;
        let ghost verdict: Result<(), String> = Ok(());
        if let Some(hook) = &self.audit_hook {
            let invocation = ToolInvocation {
                requested_tool,
                resolved_tool: resolved.clone(),
                input: tool_input.copy(),
            };
            let checked = hook.0.check(&invocation, runtime_context);
            proof {
                verdict = checked;
                assert(self.audit_answers(req, resolved@, tool_input@, runtime_context@, verdict));
            }
            match checked {
                Ok(()) => {},
                Err(reason) => {
                    let message = concat("tool audit rejected invocation: ", reason.as_str());
                    let r = self.handle_error(message);
                    proof {
                        assert(error_outcome(self@, audit_rejected(reason@), r));
                    }
                    return r;
                },
            }
        }
        proof {
            use_type_invariant(&self.tools);
        }
        let outcome = match self.tools.get(resolved.as_str()) {
            Some(entry) => entry.0.call(&tool_input, runtime_context),
            None => Err(concat3("tool `", resolved.as_str(), "` is not registered")),
        };
        let ghost g = outcome;
        let r = self.finish_invocation(outcome);
        proof {
            assert(self.tool_gives(resolved@, tool_input@, runtime_context@, g));
            match g {
                Ok(v) => assert(success_outcome(self@, v@, r)),
                Err(reason) => assert(error_outcome(self@, reason@, r)),
            }
            assert(called(*self, resolved@, tool_input@, runtime_context@, r));
        }
        r
    }

    /// This node as a graph node action.
    pub fn into_action(self) -> (r: RuntimeNodeAction)
        ensures
            forall|state: Map<Seq<char>, Value>, context: Map<Seq<char>, Value>, out: Result<NodeOutput, String>|
                #[trigger] r.outputs(state, context, out) == served(self, state, context, out),
    {
        return Box::new(self);
    }
}

impl RuntimeNodeFn for ToolNode {
    /// As [`served`] says.
    open spec fn outputs(&self, state: Map<Seq<char>, Value>, context: Map<Seq<char>, Value>, r: Result<NodeOutput, String>) -> bool {
        served(*self, state, context, r)
    }

    fn run(&self, state: &State, runtime_context: &RuntimeContext) -> (r: Result<NodeOutput, String>)
        ensures
            served(*self, state@, runtime_context@, r),
    {
        ToolNode::run(self, state, runtime_context)
    }
}

impl Default for ToolNode {
    /// The same node as `ToolNode::new`.
    fn default() -> (r: Self)
        ensures
            r@.tools == Set::<Seq<char>>::empty(),
            r@.aliases == Map::<Seq<char>, Seq<char>>::empty(),
            r@.default_tool is None,
            r@.routing_strategy == ToolRoutingStrategy::Strict,
            r@.error_strategy == ToolErrorStrategy::WriteToState,
            !r@.audited,
            r@.request_key == "tool_call"@,
            r@.result_key == "tool_result"@,
            r@.error_key == "tool_error"@,
    {
        ToolNode::new()
    }
}

} // verus!
