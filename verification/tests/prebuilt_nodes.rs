use langgraph::executor::SequentialExecutor;
use langgraph::graph::{StateGraph, StateNodeFn};
use langgraph::json::{StrMap, Value};
use langgraph::runtime::RuntimeContext;
use langgraph::state::{State, StatePatch};
use langgraph::tool_node::{Tool, ToolAudit, ToolErrorStrategy, ToolInvocation, ToolNode, ToolRoutingStrategy};
use langgraph::validation::{
    CompositeValidator, RuleCheck, RuleSetValidator, ValidationIssue, ValidationNode, ValidationRule,
};

struct Node<F>(F);

impl<F: Fn(&State) -> Result<StatePatch, String>> StateNodeFn for Node<F> {
    fn run(&self, state: &State) -> Result<StatePatch, String> {
        (self.0)(state)
    }
}

struct ToolFnImpl<F>(F);

impl<F: Fn(&Value, &RuntimeContext) -> Result<Value, String>> Tool for ToolFnImpl<F> {
    fn call(&self, input: &Value, runtime_context: &RuntimeContext) -> Result<Value, String> {
        (self.0)(input, runtime_context)
    }
}

struct AuditFn<F>(F);

impl<F: Fn(&ToolInvocation, &RuntimeContext) -> Result<(), String>> ToolAudit for AuditFn<F> {
    fn check(&self, invocation: &ToolInvocation, runtime_context: &RuntimeContext) -> Result<(), String> {
        (self.0)(invocation, runtime_context)
    }
}

struct Check<F>(F);

impl<F: Fn(Option<&Value>) -> Result<(), ValidationIssue>> RuleCheck for Check<F> {
    fn check(&self, value: Option<&Value>) -> Result<(), ValidationIssue> {
        (self.0)(value)
    }
}

fn text(s: &str) -> Value {
    Value::String(s.to_string())
}

fn map(pairs: Vec<(&str, Value)>) -> StrMap<Value> {
    let mut m = StrMap::new();
    for (k, v) in pairs {
        m.insert(k.to_string(), v);
    }
    m
}

fn obj(pairs: Vec<(&str, Value)>) -> Value {
    Value::Object(map(pairs))
}

fn finish_node() -> Box<dyn StateNodeFn> {
    Box::new(Node(|_state: &State| Ok(StrMap::new())))
}

fn echo_tool() -> Box<dyn Tool> {
    Box::new(ToolFnImpl(|input: &Value, _context: &RuntimeContext| Ok(input.copy())))
}

#[test]
fn tool_node_invokes_registered_tool_and_writes_result() {
    let mut graph = StateGraph::new();
    let mut tool_node = ToolNode::new();
    tool_node.add_tool(
        "echo_tenant",
        Box::new(ToolFnImpl(|input: &Value, runtime_context: &RuntimeContext| {
            let tenant = runtime_context
                .get("tenant")
                .and_then(|v| v.as_str())
                .map(|s| s.as_str())
                .unwrap_or("unknown");
            Ok(obj(vec![("tenant", text(tenant)), ("input", input.copy())]))
        })),
    );

    graph.add_node_with_runtime("tool", tool_node.into_action()).unwrap();
    graph.add_node("finish", finish_node()).unwrap();
    graph.add_edge("tool", "finish").unwrap();
    graph.set_entry_point("tool");
    graph.set_finish_point("finish");
    let compiled = graph.compile().unwrap();

    let state = map(vec![("tool_call", obj(vec![("name", text("echo_tenant")), ("input", obj(vec![("q", text("hello"))]))]))]);
    let context = map(vec![("tenant", text("acme"))]);
    let result = SequentialExecutor.invoke_with_runtime_context(&compiled, state, context).unwrap();

    assert_eq!(
        result.state.get("tool_result"),
        Some(&obj(vec![("tenant", text("acme")), ("input", obj(vec![("q", text("hello"))]))]))
    );
    assert_eq!(result.state.get("tool_error"), Some(&Value::Null));
}

#[test]
fn tool_node_reports_unknown_tool_without_crashing_graph() {
    let mut graph = StateGraph::new();
    graph.add_node_with_runtime("tool", ToolNode::new().into_action()).unwrap();
    graph.add_node("finish", finish_node()).unwrap();
    graph.add_edge("tool", "finish").unwrap();
    graph.set_entry_point("tool");
    graph.set_finish_point("finish");
    let compiled = graph.compile().unwrap();

    let state = map(vec![("tool_call", obj(vec![("name", text("not_found")), ("input", obj(vec![]))]))]);
    let result = SequentialExecutor.invoke(&compiled, state).unwrap();

    assert_eq!(result.get("tool_result"), None);
    assert_eq!(result.get("tool_error"), Some(&text("tool `not_found` is not registered")));
}

#[test]
fn validation_node_collects_required_and_custom_rule_errors() {
    let mut graph = StateGraph::new();
    let mut validation = ValidationNode::new();
    validation.add_rule(ValidationRule::required("user_id"));
    validation.add_rule(ValidationRule::string_min_len("query", 3));
    validation.add_rule(ValidationRule::new(
        "priority",
        Box::new(Check(|value: Option<&Value>| {
            if value.and_then(|v| v.as_i64()).unwrap_or_default() > 0 {
                Ok(())
            } else {
                Err(ValidationIssue::new(Some("priority"), "range_error", "field `priority` must be > 0"))
            }
        })),
    ));

    graph.add_node_with_runtime("validate", validation.into_action()).unwrap();
    graph.add_node("finish", finish_node()).unwrap();
    graph.add_edge("validate", "finish").unwrap();
    graph.set_entry_point("validate");
    graph.set_finish_point("finish");
    let compiled = graph.compile().unwrap();

    let state = map(vec![("query", text("hi")), ("priority", Value::Number(0))]);
    let result = SequentialExecutor.invoke(&compiled, state).unwrap();

    assert_eq!(
        result.get("validation_errors"),
        Some(&Value::Array(vec![
            text("field `user_id` is required"),
            text("field `query` must be at least 3 characters"),
            text("field `priority` must be > 0"),
        ]))
    );
    assert_eq!(
        result.get("validation_report"),
        Some(&obj(vec![
            ("valid", Value::Bool(false)),
            (
                "issues",
                Value::Array(vec![
                    obj(vec![
                        ("field", text("user_id")),
                        ("code", text("required")),
                        ("message", text("field `user_id` is required")),
                    ]),
                    obj(vec![
                        ("field", text("query")),
                        ("code", text("min_length")),
                        ("message", text("field `query` must be at least 3 characters")),
                    ]),
                    obj(vec![
                        ("field", text("priority")),
                        ("code", text("range_error")),
                        ("message", text("field `priority` must be > 0")),
                    ]),
                ]),
            ),
        ]))
    );
}

#[test]
fn tool_node_fallback_routing_uses_default_tool_for_unknown_name() {
    let mut graph = StateGraph::new();
    let mut tool_node =
        ToolNode::new().with_routing_strategy(ToolRoutingStrategy::FallbackToDefault).with_default_tool("echo");
    tool_node.add_tool("echo", echo_tool());

    graph.add_node_with_runtime("tool", tool_node.into_action()).unwrap();
    graph.add_node("finish", finish_node()).unwrap();
    graph.add_edge("tool", "finish").unwrap();
    graph.set_entry_point("tool");
    graph.set_finish_point("finish");
    let compiled = graph.compile().unwrap();

    let state =
        map(vec![("tool_call", obj(vec![("name", text("missing_tool")), ("input", obj(vec![("value", Value::Number(42))]))]))]);
    let result = SequentialExecutor.invoke(&compiled, state).unwrap();

    assert_eq!(result.get("tool_result"), Some(&obj(vec![("value", Value::Number(42))])));
    assert_eq!(result.get("tool_error"), Some(&Value::Null));
}

#[test]
fn tool_node_can_reject_with_node_error_strategy() {
    let mut graph = StateGraph::new();
    let tool_node = ToolNode::new().with_error_strategy(ToolErrorStrategy::ReturnNodeError);

    graph.add_node_with_runtime("tool", tool_node.into_action()).unwrap();
    graph.add_node("finish", finish_node()).unwrap();
    graph.add_edge("tool", "finish").unwrap();
    graph.set_entry_point("tool");
    graph.set_finish_point("finish");
    let compiled = graph.compile().unwrap();

    let state = map(vec![("tool_call", obj(vec![("name", text("missing_tool")), ("input", obj(vec![]))]))]);
    let error = SequentialExecutor.invoke(&compiled, state).unwrap_err();
    assert!(error.message().contains("tool `missing_tool` is not registered"));
}

#[test]
fn tool_node_audit_hook_can_reject_invocation() {
    let mut graph = StateGraph::new();
    let mut tool_node = ToolNode::new().with_audit_hook(Box::new(AuditFn(
        |invocation: &ToolInvocation, _context: &RuntimeContext| {
            if invocation.requested_tool == "blocked" {
                return Err(String::from("blocked by policy"));
            }
            Ok(())
        },
    )));
    tool_node.add_tool("echo", echo_tool());
    tool_node.add_alias("blocked", "echo");

    graph.add_node_with_runtime("tool", tool_node.into_action()).unwrap();
    graph.add_node("finish", finish_node()).unwrap();
    graph.add_edge("tool", "finish").unwrap();
    graph.set_entry_point("tool");
    graph.set_finish_point("finish");
    let compiled = graph.compile().unwrap();

    let state = map(vec![("tool_call", obj(vec![("name", text("blocked")), ("input", obj(vec![]))]))]);
    let result = SequentialExecutor.invoke(&compiled, state).unwrap();
    assert_eq!(result.get("tool_error"), Some(&text("tool audit rejected invocation: blocked by policy")));
}

#[test]
fn validation_node_supports_composite_any_validator() {
    let mut graph = StateGraph::new();
    let mut validation = ValidationNode::new();

    let mut email_rules = RuleSetValidator::new();
    email_rules.add_rule(ValidationRule::required("email"));

    let mut phone_rules = RuleSetValidator::new();
    phone_rules.add_rule(ValidationRule::required("phone"));

    let any_contact = CompositeValidator::any(vec![email_rules.into_ref(), phone_rules.into_ref()]);
    validation.add_validator(any_contact.into_ref());

    graph.add_node_with_runtime("validate", validation.into_action()).unwrap();
    graph.add_node("finish", finish_node()).unwrap();
    graph.add_edge("validate", "finish").unwrap();
    graph.set_entry_point("validate");
    graph.set_finish_point("finish");
    let compiled = graph.compile().unwrap();

    let state = map(vec![("phone", text("18812345678"))]);
    let result = SequentialExecutor.invoke(&compiled, state).unwrap();

    assert_eq!(result.get("validation_errors"), Some(&Value::Array(vec![])));
    assert_eq!(
        result.get("validation_report"),
        Some(&obj(vec![("valid", Value::Bool(true)), ("issues", Value::Array(vec![]))]))
    );
}
