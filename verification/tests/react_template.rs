use langgraph::executor::SequentialExecutor;
use langgraph::json::{StrMap, Value};
use langgraph::react_template::{
    build_default_tool_calling_agent, AnswerBuilder, DefaultToolCallingAgentBuilder, InputBuilder, Selector,
};
use langgraph::runtime::RuntimeContext;
use langgraph::state::State;
use langgraph::tool_node::{Tool, ToolNode};
use langgraph::validation::{ValidationNode, ValidationRule};

struct ToolFnImpl<F>(F);

impl<F: Fn(&Value, &RuntimeContext) -> Result<Value, String>> Tool for ToolFnImpl<F> {
    fn call(&self, input: &Value, runtime_context: &RuntimeContext) -> Result<Value, String> {
        (self.0)(input, runtime_context)
    }
}

struct InputFn<F>(F);

impl<F: Fn(&State) -> Value> InputBuilder for InputFn<F> {
    fn build(&self, state: &State) -> Value {
        (self.0)(state)
    }
}

struct AnswerFn<F>(F);

impl<F: Fn(&Value, &State) -> Value> AnswerBuilder for AnswerFn<F> {
    fn build(&self, tool_result: &Value, state: &State) -> Value {
        (self.0)(tool_result, state)
    }
}

struct SelectFn<F>(F);

impl<F: Fn(&State) -> Option<String>> Selector for SelectFn<F> {
    fn select(&self, state: &State) -> Option<String> {
        (self.0)(state)
    }
}

fn text(s: &str) -> Value {
    Value::String(s.to_string())
}

fn map(pairs: Vec<(&str, Value)>) -> StrMap<Value> {
    let mut m = StrMap::new();
    for (k, v) in pairs {
        m.insert(k.to_string(), v);
    }
    m
}

fn obj(pairs: Vec<(&str, Value)>) -> Value {
    Value::Object(map(pairs))
}

fn str_of<'a>(v: Option<&'a Value>) -> &'a str {
    v.and_then(|v| v.as_str()).map(|s| s.as_str()).unwrap_or_default()
}

fn member_or_null(input: &Value, key: &str) -> Value {
    input.get(key).map(|v| v.copy()).unwrap_or(Value::Null)
}

#[test]
fn default_tool_calling_template_runs_single_tool_and_emits_final_answer() {
    let mut tool_node = ToolNode::new();
    tool_node.add_tool(
        "echo",
        Box::new(ToolFnImpl(|input: &Value, _runtime_context: &RuntimeContext| {
            Ok(obj(vec![("answer", member_or_null(input, "query"))]))
        })),
    );

    let graph = build_default_tool_calling_agent("echo", tool_node).unwrap();
    let state = map(vec![("question", text("hello"))]);
    let result = SequentialExecutor.invoke_with_runtime_context(&graph, state, StrMap::new()).unwrap();

    assert_eq!(result.state.get("final_answer"), Some(&obj(vec![("answer", text("hello"))])));
    assert_eq!(result.state.get("tool_call"), Some(&Value::Null));
}

#[test]
fn default_tool_calling_template_supports_custom_keys_and_output_mapping() {
    let mut tool_node = ToolNode::new();
    tool_node.add_tool(
        "search",
        Box::new(ToolFnImpl(|input: &Value, _runtime_context: &RuntimeContext| {
            Ok(obj(vec![("doc", text(&format!("doc:{}", str_of(input.get("q")))))]))
        })),
    );

    let graph = DefaultToolCallingAgentBuilder::new("search", tool_node)
        .with_question_key("prompt")
        .with_tool_input_field("q")
        .with_final_answer_key("reply")
        .with_tool_input_builder(Box::new(InputFn(|state: &State| {
            text(&format!("{}::normalized", str_of(state.get("prompt"))))
        })))
        .with_final_answer_builder(Box::new(AnswerFn(|tool_result: &Value, _state: &State| {
            obj(vec![("text", member_or_null(tool_result, "doc"))])
        })))
        .build()
        .unwrap();

    let state = map(vec![("prompt", text("rust"))]);
    let result = SequentialExecutor.invoke_with_runtime_context(&graph, state, StrMap::new()).unwrap();

    assert_eq!(result.state.get("reply"), Some(&obj(vec![("text", text("doc:rust::normalized"))])));
}

#[test]
fn default_tool_calling_template_can_short_circuit_with_validator() {
    let mut validator = ValidationNode::new();
    validator.add_rule(ValidationRule::required("question"));

    let mut tool_node = ToolNode::new();
    tool_node.add_tool("echo", Box::new(ToolFnImpl(|input: &Value, _runtime_context: &RuntimeContext| Ok(input.copy()))));

    let graph = DefaultToolCallingAgentBuilder::new("echo", tool_node).with_validator(validator).build().unwrap();

    let result = SequentialExecutor.invoke_with_runtime_context(&graph, StrMap::new(), StrMap::new()).unwrap();

    assert_eq!(result.state.get("validation_errors"), Some(&Value::Array(vec![text("field `question` is required")])));
    assert_eq!(result.state.get("final_answer"), None);
}

#[test]
fn default_tool_calling_template_supports_tool_selection_strategy() {
    let mut tool_node = ToolNode::new();
    tool_node.add_tool(
        "search",
        Box::new(ToolFnImpl(|input: &Value, _runtime_context: &RuntimeContext| {
            Ok(obj(vec![
                ("kind", text("search")),
                ("answer", text(&format!("search:{}", str_of(input.get("query"))))),
            ]))
        })),
    );
    tool_node.add_tool(
        "math",
        Box::new(ToolFnImpl(|input: &Value, _runtime_context: &RuntimeContext| {
            Ok(obj(vec![("kind", text("math")), ("answer", text(&format!("math:{}", str_of(input.get("query")))))]))
        })),
    );

    let graph = DefaultToolCallingAgentBuilder::new("search", tool_node)
        .with_tool_selector(Box::new(SelectFn(|state: &State| {
            let question = state.get("question").and_then(|v| v.as_str())?;
            if question.contains("calculate") {
                Some(String::from("math"))
            } else {
                Some(String::from("search"))
            }
        })))
        .build()
        .unwrap();

    let state = map(vec![("question", text("calculate 1+1"))]);
    let result = SequentialExecutor.invoke_with_runtime_context(&graph, state, StrMap::new()).unwrap();

    assert_eq!(
        result.state.get("final_answer"),
        Some(&obj(vec![("kind", text("math")), ("answer", text("math:calculate 1+1"))]))
    );
}

#[test]
fn default_tool_calling_template_supports_fallback_tool_for_unknown_selection() {
    let mut tool_node = ToolNode::new();
    tool_node.add_tool("search", Box::new(ToolFnImpl(|input: &Value, _runtime_context: &RuntimeContext| Ok(input.copy()))));
    tool_node.add_tool(
        "fallback",
        Box::new(ToolFnImpl(|input: &Value, _runtime_context: &RuntimeContext| {
            Ok(obj(vec![("fallback_used", member_or_null(input, "query"))]))
        })),
    );

    let graph = DefaultToolCallingAgentBuilder::new("search", tool_node)
        .with_tool_selector(Box::new(SelectFn(|_state: &State| Some(String::from("non_existing_tool")))))
        .with_fallback_tool("fallback")
        .build()
        .unwrap();

    let state = map(vec![("question", text("hello fallback"))]);
    let result = SequentialExecutor.invoke_with_runtime_context(&graph, state, StrMap::new()).unwrap();

    assert_eq!(result.state.get("final_answer"), Some(&obj(vec![("fallback_used", text("hello fallback"))])));
}

fn keys_of<V>(m: &StrMap<V>) -> Vec<String> {
    (0..m.len()).map(|i| m.key_at(i).clone()).collect()
}

#[test]
fn default_agent_has_planner_tools_and_finish_wired_as_a_loop() {
    let graph = build_default_tool_calling_agent("echo", ToolNode::new()).unwrap();
    assert_eq!(keys_of(&graph.nodes), vec!["finish", "planner", "tools"]);
    assert_eq!(keys_of(&graph.adjacency), vec!["tools"]);
    assert_eq!(graph.adjacency.get("tools").unwrap(), &vec!["planner".to_string()]);
    assert_eq!(keys_of(&graph.conditional_edges), vec!["planner"]);
    assert_eq!(graph.conditional_edges.get("planner").unwrap().targets, vec!["tools".to_string(), "finish".to_string()]);
    assert!(graph.reducers.is_empty());
    assert!(graph.channels.is_empty());
    assert_eq!(graph.entry_point, "planner");
    assert_eq!(graph.finish_point, "finish");
}

#[test]
fn validated_agent_enters_at_validation_routing_to_planner_or_finish() {
    let graph = DefaultToolCallingAgentBuilder::new("echo", ToolNode::new())
        .with_validator(ValidationNode::new())
        .build()
        .unwrap();
    assert_eq!(keys_of(&graph.nodes), vec!["finish", "planner", "tools", "validate"]);
    assert_eq!(keys_of(&graph.conditional_edges), vec!["planner", "validate"]);
    assert_eq!(graph.conditional_edges.get("validate").unwrap().targets, vec!["planner".to_string(), "finish".to_string()]);
    assert_eq!(graph.entry_point, "validate");
}
