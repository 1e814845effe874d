//! A ready-made tool-calling agent: a planner that asks for one tool call
//! built from the state, then turns the tool's result (or error) into the
//! final answer.
use vstd::prelude::*;
use crate::channel::Slot;
use crate::error::GraphError;
use crate::graph::{CompiledGraph, RuntimeNodeAction, RuntimeNodeFn};
use crate::json::{Json, StrMap, Value};
use crate::react::{agent_acts, agent_names_fault, agent_shape, ReactAgentBuilder, ReactNodeNames};
use crate::runtime::{NodeOutput, RuntimeContext};
use crate::state::{json_map, State, StatePatch};
use crate::text::owned;
use crate::tool_node::{ToolNode, ToolNodeView, ToolRoutingStrategy};
use crate::validation::ValidationNode;

verus! {

#[derive(Debug, PartialEq, Eq)]
pub struct DefaultToolCallingKeys {
    pub question_key: String,
    pub tool_call_key: String,
    pub tool_result_key: String,
    pub tool_error_key: String,
    pub final_answer_key: String,
    pub tool_input_field: String,
}

impl Default for DefaultToolCallingKeys {
    /// `question`, `tool_call`, `tool_result`, `tool_error`, `final_answer`
    /// and `query`.
    fn default() -> (r: Self)
        ensures
            r.question_key@ == "question"@,
            r.tool_call_key@ == "tool_call"@,
            r.tool_result_key@ == "tool_result"@,
            r.tool_error_key@ == "tool_error"@,
            r.final_answer_key@ == "final_answer"@,
            r.tool_input_field@ == "query"@,
    {
        DefaultToolCallingKeys {
            question_key: owned("question"),
            tool_call_key: owned("tool_call"),
            tool_result_key: owned("tool_result"),
            tool_error_key: owned("tool_error"),
            final_answer_key: owned("final_answer"),
            tool_input_field: owned("query"),
        }
    }
}

impl DefaultToolCallingKeys {
    /// A copy of these keys.
    pub fn copy(&self) -> (r: Self)
        ensures
            r == *self,
    {
        DefaultToolCallingKeys {
            question_key: self.question_key.clone(),
            tool_call_key: self.tool_call_key.clone(),
            tool_result_key: self.tool_result_key.clone(),
            tool_error_key: self.tool_error_key.clone(),
            final_answer_key: self.final_answer_key.clone(),
            tool_input_field: self.tool_input_field.clone(),
        }
    }
}

/// Builds the tool's input from the state.
pub trait InputBuilder {
    /// Whether `r` may be the input built from `state`.  A builder that
    /// does not say more promises nothing.
    open spec fn builds(&self, state: Map<Seq<char>, Value>, r: Json) -> bool {
        true
    }

    fn build(&self, state: &State) -> (r: Value)
        ensures
            self.builds(state@, r@),
    ;
}

/// Builds the final answer from the tool's result and the state.
pub trait AnswerBuilder {
    /// Whether `r` may be the answer built from `tool_result` and `state`.
    /// A builder that does not say more promises nothing.
    open spec fn answers(&self, tool_result: Json, state: Map<Seq<char>, Value>, r: Json) -> bool {
        true
    }

    fn build(&self, tool_result: &Value, state: &State) -> (r: Value)
        ensures
            self.answers(tool_result@, state@, r@),
    ;
}

/// Chooses the tool for the state, if it has a preference.
pub trait Selector {
    /// Whether `r` may be the choice for `state`.  A selector that does not
    /// say more promises nothing.
    open spec fn selects(&self, state: Map<Seq<char>, Value>, r: Option<String>) -> bool {
        true
    }

    fn select(&self, state: &State) -> (r: Option<String>)
        ensures
            self.selects(state@, r),
    ;
}

pub type ToolInputBuilder = Box<dyn InputBuilder>;

pub type FinalAnswerBuilder = Box<dyn AnswerBuilder>;

pub type ToolSelector = Box<dyn Selector>;

/// The tool input is the value at the question key (null when absent).
pub struct QuestionInput {
    pub question_key: String,
}

impl InputBuilder for QuestionInput {
    /// The value at the question key, or null.
    open spec fn builds(&self, state: Map<Seq<char>, Value>, r: Json) -> bool {
        r == (if state.contains_key(self.question_key@) {
            state[self.question_key@]@
        } else {
            Json::Null
        })
    }

    fn build(&self, state: &State) -> (r: Value)
        ensures
            r@ == (if state@.contains_key(self.question_key@) {
                state@[self.question_key@]@
            } else {
                Json::Null
            }),
    {
        match state.get(self.question_key.as_str()) {
            Some(v) => v.copy(),
            None => Value::Null,
        }
    }
}

/// The final answer is the tool's result itself.
pub struct ResultAnswer;

impl AnswerBuilder for ResultAnswer {
    /// The tool's result itself.
    open spec fn answers(&self, tool_result: Json, state: Map<Seq<char>, Value>, r: Json) -> bool {
        r == tool_result
    }

    fn build(&self, tool_result: &Value, state: &State) -> (r: Value)
        ensures
            r@ == tool_result@,
    {
        tool_result.copy()
    }
}

/// The default tool input: the value at `question_key`.
fn question_input(question_key: &str) -> (r: QuestionInput)
    ensures
        r.question_key@ == question_key@,
{
    QuestionInput { question_key: owned(question_key) }
}

/// The default final answer: the tool's result.
fn result_answer() -> (r: ResultAnswer) {
    ResultAnswer
}

/// Whether the state has a non-null value at `key`.
pub open spec fn non_null_at(state: Map<Seq<char>, Value>, key: Seq<char>) -> bool {
    state.contains_key(key) && !(state[key] is Null)
}

/// The patch that gives `answer` as the final answer and clears the request.
pub open spec fn answer_patch(keys: DefaultToolCallingKeys, answer: Json) -> Map<Seq<char>, Json> {
    Map::<Seq<char>, Json>::empty().insert(keys.final_answer_key@, answer).insert(keys.tool_call_key@, Json::Null)
}

/// Whether `patch` asks for tool `name` with `input` under the input field.
pub open spec fn requests_tool(keys: DefaultToolCallingKeys, name: Seq<char>, input: Json, patch: StrMap<Value>) -> bool {
    &&& patch@.dom() == Set::<Seq<char>>::empty().insert(keys.tool_call_key@)
    &&& patch@[keys.tool_call_key@] matches Value::Object(call) && json_map(call) == Map::<Seq<char>, Json>::empty().insert(
        "name"@,
        Json::Text(name),
    ).insert("input"@, Json::Object(seq![(keys.tool_input_field@, input)]))
}

/// The patch answering with the tool's error: `{"error": error}`.
pub fn error_answer_patch(keys: &DefaultToolCallingKeys, error: &Value) -> (r: StatePatch)
    ensures
        json_map(r) == answer_patch(*keys, Json::Object(seq![("error"@, error@)])),
{
    let answer = Value::singleton_object(owned("error"), error.copy());
    let mut patch = StrMap::new();
    patch.insert(keys.final_answer_key.clone(), answer);
    patch.insert(keys.tool_call_key.clone(), Value::Null);
    proof {
        assert(json_map(patch) =~= answer_patch(*keys, Json::Object(seq![("error"@, error@)])));
    }
    patch
}

/// The patch that asks for tool `name`, with `input` under the input field.
pub fn tool_request_patch(keys: &DefaultToolCallingKeys, name: String, input: Value) -> (r: StatePatch)
    ensures
        requests_tool(*keys, name@, input@, r),
{
    let ghost nv = name@;
    let ghost iv = input@;
    let input_obj = Value::singleton_object(keys.tool_input_field.clone(), input);
    let ghost ov = input_obj@;
    let mut call = StrMap::new();
    call.insert(owned("name"), Value::String(name));
    call.insert(owned("input"), input_obj);
    proof {
        assert(json_map(call) =~= Map::<Seq<char>, Json>::empty().insert("name"@, Json::Text(nv)).insert(
            "input"@,
            Json::Object(seq![(keys.tool_input_field@, iv)]),
        ));
    }
    let mut patch = StrMap::new();
    patch.insert(keys.tool_call_key.clone(), Value::Object(call));
    proof {
        assert(patch@.dom() =~= Set::<Seq<char>>::empty().insert(keys.tool_call_key@));
    }
    patch
}

/// The tool to ask for: the selector's choice when it is not empty, else
/// the primary tool.
pub open spec fn chosen_tool(selected: Option<String>, primary: Seq<char>) -> Seq<char> {
    match selected {
        Some(s) => if s@.len() > 0 {
            s@
        } else {
            primary
        },
        None => primary,
    }
}

/// The tool to ask for.
pub fn choose_tool(selected: Option<String>, primary: &str) -> (r: String)
    ensures
        r@ == chosen_tool(selected, primary@),
{
    match selected {
        Some(s) => if s.as_str().unicode_len() > 0 {
            s
        } else {
            owned(primary)
        },
        None => owned(primary),
    }
}

/// The planner of the template: with a tool result it answers with it;
/// with a tool error it answers with the error; otherwise it asks for a
/// tool call.
pub struct DefaultPlanner {
    pub primary_tool_name: String,
    pub tool_selector: Option<Slot<ToolSelector>>,
    pub keys: DefaultToolCallingKeys,
    pub tool_input_builder: Slot<ToolInputBuilder>,
    pub final_answer_builder: Slot<FinalAnswerBuilder>,
}

impl DefaultPlanner {
    /// The planner's step on `state`.
    pub fn plan(&self, state: &State) -> (r: NodeOutput)
        ensures
            self.planned(state@, r),
    {
        match state.get(self.keys.tool_result_key.as_str()) {
            Some(result) => if !result.is_null() {
                let answer = self.final_answer_builder.0.build(result, state);
                let ghost av = answer@;
                let mut patch = StrMap::new();
                patch.insert(self.keys.final_answer_key.clone(), answer);
                patch.insert(self.keys.tool_call_key.clone(), Value::Null);
                proof {
                    assert(json_map(patch) =~= answer_patch(self.keys, av));
                    assert(self.final_answer_builder.0.answers(state@[self.keys.tool_result_key@]@, state@, av));
                }
                return NodeOutput::from_patch(patch);
            },
            None => {},
        }
        match state.get(self.keys.tool_error_key.as_str()) {
            Some(error) => if !error.is_null() {
                return NodeOutput::from_patch(error_answer_patch(&self.keys, error));
            },
            None => {},
        }
        let input = self.tool_input_builder.0.build(state);
        let selected = match &self.tool_selector {
            Some(selector) => selector.0.select(state),
            None => None,
        };
        let ghost sel_g = selected;
        let name = choose_tool(selected, self.primary_tool_name.as_str());
        let ghost nv = name@;
        let ghost iv = input@;
        let patch = tool_request_patch(&self.keys, name, input);
        proof {
            assert(requests_tool(self.keys, nv, iv, patch));
            assert(self.tool_input_builder.0.builds(state@, iv));
            if self.tool_selector is Some {
                assert((self.tool_selector->0).0.selects(state@, sel_g));
            }
        }
        NodeOutput::from_patch(patch)
    }
}

impl DefaultPlanner {
    /// What a step of this planner on `state` gives: no commands; with a
    /// tool result, an answer; else with a tool error, the error as the
    /// answer; else a request for a tool (the primary one when there is no
    /// selector).
    pub open spec fn planned(self, state: Map<Seq<char>, Value>, r: NodeOutput) -> bool {
        &&& r.commands@.len() == 0
        &&& non_null_at(state, self.keys.tool_result_key@) ==> exists|a: Json|
            #[trigger] answer_patch(self.keys, a) == json_map(r.patch) && self.final_answer_builder.0.answers(
                state[self.keys.tool_result_key@]@,
                state,
                a,
            )
        &&& !non_null_at(state, self.keys.tool_result_key@) && non_null_at(state, self.keys.tool_error_key@)
            ==> json_map(r.patch) == answer_patch(self.keys, Json::Object(seq![("error"@, state[self.keys.tool_error_key@]@)]))
        &&& !non_null_at(state, self.keys.tool_result_key@) && !non_null_at(state, self.keys.tool_error_key@)
            ==> exists|name: Seq<char>, input: Json|
            #[trigger] requests_tool(self.keys, name, input, r.patch) && self.tool_input_builder.0.builds(state, input)
                && match self.tool_selector {
                None => name == self.primary_tool_name@,
                Some(sel) => exists|choice: Option<String>|
                    #[trigger] sel.0.selects(state, choice) && name == chosen_tool(choice, self.primary_tool_name@),
            }
    }
}

impl RuntimeNodeFn for DefaultPlanner {
    /// Always a step as [`DefaultPlanner::planned`] says.
    open spec fn outputs(&self, state: Map<Seq<char>, Value>, context: Map<Seq<char>, Value>, r: Result<NodeOutput, String>) -> bool {
        r matches Ok(out) && self.planned(state, out)
    }

    fn run(&self, state: &State, runtime_context: &RuntimeContext) -> (r: Result<NodeOutput, String>)
        ensures
            r is Ok,
            r matches Ok(out) ==> self.planned(state@, out),
    {
        let out = self.plan(state);
        proof {
            assert(self.planned(state@, out));
        }
        Ok(out)
    }
}

/// The template's planner, calling `primary_tool_name` unless `tool_selector`
/// chooses another.
pub fn default_planner_action(
    primary_tool_name: String,
    tool_selector: Option<ToolSelector>,
    keys: DefaultToolCallingKeys,
    tool_input_builder: ToolInputBuilder,
    final_answer_builder: FinalAnswerBuilder,
) -> (r: DefaultPlanner)
    ensures
        r.primary_tool_name@ == primary_tool_name@,
        r.keys == keys,
        r.tool_selector is None <==> tool_selector is None,
        tool_selector is Some ==> (r.tool_selector->0).0 == tool_selector->0,
        r.tool_input_builder.0 == tool_input_builder,
        r.final_answer_builder.0 == final_answer_builder,
{
    let ghost given_selector = tool_selector;
    let ghost given_input = tool_input_builder;
    let ghost given_answer = final_answer_builder;
    let selector = match tool_selector {
        Some(t) => {
            let ghost gt = t;
            let held = Slot(t);
            assert(held.0 == gt);
            Some(held)
        },
        None => None,
    };
    let input = Slot(tool_input_builder);
    assert(input.0 == given_input);
    let answer = Slot(final_answer_builder);
    assert(answer.0 == given_answer);
    let r = DefaultPlanner {
        primary_tool_name,
        tool_selector: selector,
        keys,
        tool_input_builder: input,
        final_answer_builder: answer,
    };
    assert(r.tool_input_builder.0 == given_input);
    assert(r.final_answer_builder.0 == given_answer);
    r
}

/// The default planner of the given parts.
pub(crate) fn planner_of_parts(
    primary_tool_name: String,
    tool_selector: Option<Slot<ToolSelector>>,
    keys: DefaultToolCallingKeys,
    tool_input_builder: Slot<ToolInputBuilder>,
    final_answer_builder: Slot<FinalAnswerBuilder>,
) -> (r: DefaultPlanner)
    ensures
        r.primary_tool_name == primary_tool_name,
        r.keys == keys,
        r.tool_selector == tool_selector,
        r.tool_input_builder == tool_input_builder,
        r.final_answer_builder == final_answer_builder,
{
    DefaultPlanner { primary_tool_name, tool_selector, keys, tool_input_builder, final_answer_builder }
}

/// Whether `planner` acts as the default planner of `b`: `b`'s primary
/// tool, keys, input and answer builders and selector.
pub open spec fn template_planner(b: DefaultToolCallingAgentBuilder, planner: Slot<RuntimeNodeAction>) -> bool {
    exists|dp: DefaultPlanner|
        dp.primary_tool_name@ == b@.primary && dp.keys == b.keys_of() && dp.tool_input_builder == b.input_builder()
            && dp.final_answer_builder == b.answer_builder() && dp.tool_selector == b.selector() && forall|
            st: Map<Seq<char>, Value>,
            c: Map<Seq<char>, Value>,
            o: Result<NodeOutput, String>,
        | #[trigger] planner.0.outputs(st, c, o) == dp.outputs(st, c, o)
}

/// Whether `t` is `b`'s tool node set up for the agent: reading requests
/// and writing results and failures under `b`'s keys, falling back to
/// `b`'s fallback tool when there is one, with `b`'s tools and audit.
pub open spec fn template_tools(b: DefaultToolCallingAgentBuilder, t: ToolNode) -> bool {
    let base = b@.tool_node;
    let keyed = ToolNodeView {
        request_key: b@.tool_call_key,
        result_key: b@.tool_result_key,
        error_key: b@.tool_error_key,
        ..base
    };
    &&& t@ == match b@.fallback {
        Some(f) => ToolNodeView {
            routing_strategy: ToolRoutingStrategy::FallbackToDefault,
            default_tool: Some(f),
            ..keyed
        },
        None => keyed,
    }
    &&& forall|n: Seq<char>, i: Json, c: Map<Seq<char>, Value>, a: Result<Value, String>|
        #[trigger] t.tool_gives(n, i, c, a) == b.tool_node_of().tool_gives(n, i, c, a)
    &&& forall|q: Seq<char>, n: Seq<char>, i: Json, c: Map<Seq<char>, Value>, a: Result<(), String>|
        #[trigger] t.audit_answers(q, n, i, c, a) == b.tool_node_of().audit_answers(q, n, i, c, a)
}

/// What a template builder is configured with.
pub struct TemplateView {
    pub primary: Seq<char>,
    pub fallback: Option<Seq<char>>,
    pub names: ReactNodeNames,
    pub validated: bool,
    pub default_input: bool,
    pub default_answer: bool,
    pub selected: bool,
    pub question_key: Seq<char>,
    pub tool_call_key: Seq<char>,
    pub tool_result_key: Seq<char>,
    pub tool_error_key: Seq<char>,
    pub final_answer_key: Seq<char>,
    pub tool_input_field: Seq<char>,
    pub tool_node: ToolNodeView,
}

pub struct DefaultToolCallingAgentBuilder {
    primary_tool_name: String,
    fallback_tool_name: Option<String>,
    tool_node: ToolNode,
    validator: Option<ValidationNode>,
    node_names: ReactNodeNames,
    keys: DefaultToolCallingKeys,
    tool_input_builder: Slot<ToolInputBuilder>,
    final_answer_builder: Slot<FinalAnswerBuilder>,
    tool_selector: Option<Slot<ToolSelector>>,
    uses_default_tool_input_builder: bool,
    uses_default_final_answer_builder: Ghost<bool>,
}

impl View for DefaultToolCallingAgentBuilder {
    type V = TemplateView;

    closed spec fn view(&self) -> TemplateView {
        TemplateView {
            primary: self.primary_tool_name@,
            fallback: match self.fallback_tool_name {
                Some(f) => Some(f@),
                None => None,
            },
            names: self.node_names,
            validated: self.validator is Some,
            default_input: self.uses_default_tool_input_builder,
            default_answer: self.uses_default_final_answer_builder@,
            selected: self.tool_selector is Some,
            question_key: self.keys.question_key@,
            tool_call_key: self.keys.tool_call_key@,
            tool_result_key: self.keys.tool_result_key@,
            tool_error_key: self.keys.tool_error_key@,
            final_answer_key: self.keys.final_answer_key@,
            tool_input_field: self.keys.tool_input_field@,
            tool_node: self.tool_node@,
        }
    }
}

impl DefaultToolCallingAgentBuilder {
    /// The builder of the tool input.
    pub closed spec fn input_builder(self) -> Slot<ToolInputBuilder> {
        self.tool_input_builder
    }

    /// The builder of the answer.
    pub closed spec fn answer_builder(self) -> Slot<FinalAnswerBuilder> {
        self.final_answer_builder
    }

    /// The tool selector, if any.
    pub closed spec fn selector(self) -> Option<Slot<ToolSelector>> {
        self.tool_selector
    }

    /// The keys of the agent.
    pub closed spec fn keys_of(self) -> DefaultToolCallingKeys {
        self.keys
    }

    /// The tool node as given, before the agent's keys are applied.
    pub closed spec fn tool_node_of(self) -> ToolNode {
        self.tool_node
    }

    /// An agent calling `tool_name` from `tool_node`, with the default keys
    /// and names; the tool input is the question, the answer the tool's
    /// result.
    pub fn new(tool_name: &str, tool_node: ToolNode) -> (r: Self)
        ensures
            r@.primary == tool_name@,
            r@.fallback is None,
            r@.names.validate@ == "validate"@,
            r@.names.planner@ == "planner"@,
            r@.names.tools@ == "tools"@,
            r@.names.finish@ == "finish"@,
            !r@.validated,
            r@.default_input,
            r@.default_answer,
            !r@.selected,
            r@.question_key == "question"@,
            r@.tool_call_key == "tool_call"@,
            r@.tool_result_key == "tool_result"@,
            r@.tool_error_key == "tool_error"@,
            r@.final_answer_key == "final_answer"@,
            r@.tool_input_field == "query"@,
            r@.tool_node == tool_node@,
    {
        let keys = DefaultToolCallingKeys::default();
        let tool_input_builder: ToolInputBuilder = Box::new(question_input(keys.question_key.as_str()));
        let final_answer_builder: FinalAnswerBuilder = Box::new(result_answer());
        DefaultToolCallingAgentBuilder {
            primary_tool_name: owned(tool_name),
            fallback_tool_name: None,
            tool_node,
            validator: None,
            node_names: ReactNodeNames::default(),
            keys,
            tool_input_builder: Slot(tool_input_builder),
            final_answer_builder: Slot(final_answer_builder),
            tool_selector: None,
            uses_default_tool_input_builder: true,
            uses_default_final_answer_builder: Ghost(true),
        }
    }

    /// This agent validating with `validator` before planning.
    pub fn with_validator(self, validator: ValidationNode) -> (r: Self)
        ensures
            r@ == (TemplateView { validated: true, ..self@ }),
    {
        let mut r = self;
        r.validator = Some(validator);
        r
    }

    /// This agent with node names `names`.
    pub fn with_node_names(self, names: ReactNodeNames) -> (r: Self)
        ensures
            r@ == (TemplateView { names: names, ..self@ }),
    {
        let mut r = self;
        r.node_names = names;
        r
    }

    /// This agent reading the question from `key`; the default tool input
    /// follows it.
    pub fn with_question_key(self, key: &str) -> (r: Self)
        ensures
            r@ == (TemplateView { question_key: key@, ..self@ }),
    {
        let mut r = self;
        r.keys.question_key = owned(key);
        if r.uses_default_tool_input_builder {
            let builder: ToolInputBuilder = Box::new(question_input(key));
            r.tool_input_builder = Slot(builder);
        }
        r
    }

    /// This agent writing tool requests under `key`.
    pub fn with_tool_call_key(self, key: &str) -> (r: Self)
        ensures
            r@ == (TemplateView { tool_call_key: key@, ..self@ }),
    {
        let mut r = self;
        r.keys.tool_call_key = owned(key);
        r
    }

    /// This agent reading tool results from `key`.
    pub fn with_tool_result_key(self, key: &str) -> (r: Self)
        ensures
            r@ == (TemplateView { tool_result_key: key@, ..self@ }),
    {
        let mut r = self;
        r.keys.tool_result_key = owned(key);
        r
    }

    /// This agent reading tool errors from `key`.
    pub fn with_tool_error_key(self, key: &str) -> (r: Self)
        ensures
            r@ == (TemplateView { tool_error_key: key@, ..self@ }),
    {
        let mut r = self;
        r.keys.tool_error_key = owned(key);
        r
    }

    /// This agent writing its answer under `key`.
    pub fn with_final_answer_key(self, key: &str) -> (r: Self)
        ensures
            r@ == (TemplateView { final_answer_key: key@, ..self@ }),
    {
        let mut r = self;
        r.keys.final_answer_key = owned(key);
        r
    }

    /// This agent putting the tool input under field `key`.
    pub fn with_tool_input_field(self, key: &str) -> (r: Self)
        ensures
            r@ == (TemplateView { tool_input_field: key@, ..self@ }),
    {
        let mut r = self;
        r.keys.tool_input_field = owned(key);
        r
    }

    /// This agent building the tool input with `builder`.
    pub fn with_tool_input_builder(self, builder: ToolInputBuilder) -> (r: Self)
        ensures
            r@ == (TemplateView { default_input: false, ..self@ }),
            r.input_builder().0 == builder,
            r.answer_builder() == self.answer_builder(),
            r.selector() == self.selector(),
    {
        let ghost given = builder;
        let held = Slot(builder);
        assert(held.0 == given);
        let mut r = self;
        r.tool_input_builder = held;
        r.uses_default_tool_input_builder = false;
        r
    }

    /// This agent building its answer with `builder` in place of the
    /// tool's result.
    pub fn with_final_answer_builder(self, builder: FinalAnswerBuilder) -> (r: Self)
        ensures
            r@ == (TemplateView { default_answer: false, ..self@ }),
            r.answer_builder().0 == builder,
            r.input_builder() == self.input_builder(),
            r.selector() == self.selector(),
    {
        let ghost given = builder;
        let held = Slot(builder);
        assert(held.0 == given);
        let mut r = self;
        r.final_answer_builder = held;
        r.uses_default_final_answer_builder = Ghost(false);
        r
    }

    /// This agent choosing its tool with `selector`.
    pub fn with_tool_selector(self, selector: ToolSelector) -> (r: Self)
        ensures
            r@ == (TemplateView { selected: true, ..self@ }),
            r.selector() is Some,
            (r.selector()->0).0 == selector,
            r.input_builder() == self.input_builder(),
            r.answer_builder() == self.answer_builder(),
    {
        let ghost given = selector;
        let held = Slot(selector);
        assert(held.0 == given);
        let mut r = self;
        r.tool_selector = Some(held);
        r
    }

    /// This agent falling back to `tool_name` for a tool it does not know.
    pub fn with_fallback_tool(self, tool_name: &str) -> (r: Self)
        ensures
            r@ == (TemplateView { fallback: Some(tool_name@), ..self@ }),
    {
        let mut r = self;
        r.fallback_tool_name = Some(owned(tool_name));
        r
    }

    /// Builds and compiles the agent.  It fails exactly when two of its
    /// nodes would share a name.
    pub fn build(self) -> (r: Result<CompiledGraph, GraphError>)
        ensures
            r is Ok <==> agent_names_fault(self@.names, self@.validated) is None,
            r matches Err(e) ==> Some(e@) == agent_names_fault(self@.names, self@.validated),
            r matches Ok(g) ==> agent_shape(
                g,
                self@.names.planner@,
                self@.names.tools@,
                self@.names.finish@,
                self@.names.validate@,
                self@.validated,
            ),
            r matches Ok(g) ==> exists|ab: ReactAgentBuilder|
                #[trigger] agent_acts(g, ab) && ab.names() == self@.names && ab.validated() == self@.validated
                    && ab.tool_call_key_view() == self@.tool_call_key && template_planner(self, ab.planner_of())
                    && template_tools(self, ab.tool_node_of()),
    {
        let ghost v = self@;
        let ghost me = self;
        let DefaultToolCallingAgentBuilder {
            primary_tool_name,
            fallback_tool_name,
            tool_node,
            validator,
            node_names,
            keys,
            tool_input_builder,
            final_answer_builder,
            tool_selector,
            uses_default_tool_input_builder: _,
            uses_default_final_answer_builder: _,
        } = self;
        let mut tool_node = tool_node.with_request_key(keys.tool_call_key.as_str()).with_result_key(
            keys.tool_result_key.as_str(),
        ).with_error_key(keys.tool_error_key.as_str());
        if let Some(fallback) = fallback_tool_name {
            tool_node = tool_node.with_routing_strategy(ToolRoutingStrategy::FallbackToDefault).with_default_tool(
                fallback.as_str(),
            );
        }
        let tool_call_key = keys.tool_call_key.clone();
        let dp = planner_of_parts(primary_tool_name, tool_selector, keys, tool_input_builder, final_answer_builder);
        let ghost dpg = dp;
        let planner: RuntimeNodeAction = Box::new(dp);
        proof {
            assert forall|st: Map<Seq<char>, Value>, c: Map<Seq<char>, Value>, o: Result<NodeOutput, String>|
                #[trigger] planner.outputs(st, c, o) == dpg.outputs(st, c, o) by {}
        }
        let ghost pg = planner;
        let held = Slot(planner);
        assert(held.0 == pg);
        let mut builder = ReactAgentBuilder::new_held(held, tool_node).with_tool_call_key(tool_call_key.as_str()).with_node_names(
            node_names,
        );
        if let Some(validation) = validator {
            builder = builder.with_validator(validation);
        }
        let ghost ab = builder;
        proof {
            assert(template_planner(me, ab.planner_of()));
            assert(template_tools(me, ab.tool_node_of()));
        }
        builder.build()
    }
}

/// Builds the template agent calling `tool_name`, with every default.
pub fn build_default_tool_calling_agent(tool_name: &str, tool_node: ToolNode) -> (r: Result<CompiledGraph, GraphError>)
    ensures
        r is Ok,
        r matches Ok(g) ==> agent_shape(g, "planner"@, "tools"@, "finish"@, "validate"@, false),
{
    let builder = DefaultToolCallingAgentBuilder::new(tool_name, tool_node);
    proof {
        reveal_strlit("planner");
        reveal_strlit("tools");
        reveal_strlit("finish");
        assert("tools"@[0] != "planner"@[0]);
        assert("finish"@[0] != "planner"@[0]);
        assert("finish"@[0] != "tools"@[0]);
    }
    builder.build()
}

} // verus!
