use langgraph::executor::SequentialExecutor;
use langgraph::graph::{RuntimeNodeAction, RuntimeNodeFn};
use langgraph::json::{StrMap, Value};
use langgraph::react::{build_react_agent, ReactAgentBuilder};
use langgraph::runtime::{NodeOutput, RuntimeContext};
use langgraph::state::State;
use langgraph::tool_node::{Tool, ToolNode};
use langgraph::validation::{ValidationNode, ValidationRule};

struct RtNode<F>(F);

impl<F: Fn(&State, &RuntimeContext) -> Result<NodeOutput, String>> RuntimeNodeFn for RtNode<F> {
    fn run(&self, state: &State, runtime_context: &RuntimeContext) -> Result<NodeOutput, String> {
        (self.0)(state, runtime_context)
    }
}

struct ToolFnImpl<F>(F);

impl<F: Fn(&Value, &RuntimeContext) -> Result<Value, String>> Tool for ToolFnImpl<F> {
    fn call(&self, input: &Value, runtime_context: &RuntimeContext) -> Result<Value, String> {
        (self.0)(input, runtime_context)
    }
}

fn text(s: &str) -> Value {
    Value::String(s.to_string())
}

fn map(pairs: Vec<(&str, Value)>) -> StrMap<Value> {
    let mut m = StrMap::new();
    for (k, v) in pairs {
        m.insert(k.to_string(), v);
    }
    m
}

fn obj(pairs: Vec<(&str, Value)>) -> Value {
    Value::Object(map(pairs))
}

fn planner_action() -> RuntimeNodeAction {
    Box::new(RtNode(|state: &State, _runtime_context: &RuntimeContext| {
        if let Some(tool_result) = state.get("tool_result") {
            return Ok(NodeOutput::from_patch(map(vec![
                ("final_answer", tool_result.copy()),
                ("tool_call", Value::Null),
            ])));
        }

        let query = state.get("question").map(|v| v.copy()).unwrap_or(text(""));
        Ok(NodeOutput::from_patch(map(vec![(
            "tool_call",
            obj(vec![("name", text("echo")), ("input", obj(vec![("query", query)]))]),
        )])))
    }))
}

#[test]
fn react_agent_routes_between_planner_and_tool_until_finish() {
    let mut tool_node = ToolNode::new();
    tool_node.add_tool(
        "echo",
        Box::new(ToolFnImpl(|input: &Value, _runtime_context: &RuntimeContext| {
            let query = input.get("query").map(|v| v.copy()).unwrap_or(Value::Null);
            Ok(obj(vec![("answer", query)]))
        })),
    );

    let graph = build_react_agent(planner_action(), tool_node).unwrap();
    let state = map(vec![("question", text("hello"))]);
    let result = SequentialExecutor.invoke_with_runtime_context(&graph, state, StrMap::new()).unwrap();

    assert_eq!(result.state.get("final_answer"), Some(&obj(vec![("answer", text("hello"))])));
    assert_eq!(result.state.get("tool_error"), Some(&Value::Null));
}

#[test]
fn react_agent_with_validator_stops_before_planner_when_invalid() {
    let mut validator = ValidationNode::new();
    validator.add_rule(ValidationRule::required("question"));

    let mut tool_node = ToolNode::new();
    tool_node.add_tool("echo", Box::new(ToolFnImpl(|input: &Value, _runtime_context: &RuntimeContext| Ok(input.copy()))));

    let graph = ReactAgentBuilder::new(planner_action(), tool_node).with_validator(validator).build().unwrap();
    let result = SequentialExecutor.invoke_with_runtime_context(&graph, StrMap::new(), StrMap::new()).unwrap();

    assert_eq!(result.state.get("tool_call"), None);
    assert_eq!(result.state.get("final_answer"), None);
    assert_eq!(result.state.get("validation_errors"), Some(&Value::Array(vec![text("field `question` is required")])));
}
