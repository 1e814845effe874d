use langgraph::cli::{
    build_graph, parse_args, run, run_with_args, state_from_input, CliError, Command as CliCommand, InputSource,
    RunArgs, RunOutput,
};
use langgraph::command_policy::{resolve_commands, CommandPolicy};
use langgraph::error::GraphError;
use langgraph::executor::{CollectSink, DiscardSink, StreamEvent};
use langgraph::json::{StrMap, Value};
use langgraph::react::{has_tool_call, has_validation_errors, route_by_default, ReactAgentBuilder, ReactNodeNames};
use langgraph::graph::RuntimeNodeFn;
use langgraph::runtime::{Command, NodeOutput, RuntimeContext};
use langgraph::state::State;
use langgraph::tool_node::{ToolErrorStrategy, ToolNode};
use langgraph::validation::{combine_issues, CompositeMode, ValidationIssue, ValidationRule};

fn text(s: &str) -> Value {
    Value::String(s.to_string())
}

fn map(pairs: Vec<(&str, Value)>) -> StrMap<Value> {
    let mut m = StrMap::new();
    for (k, v) in pairs {
        m.insert(k.to_string(), v);
    }
    m
}

fn obj(pairs: Vec<(&str, Value)>) -> Value {
    Value::Object(map(pairs))
}

fn args(items: &[&str]) -> Vec<String> {
    items.iter().map(|s| s.to_string()).collect()
}

struct FixedInput(Option<State>);

impl InputSource for FixedInput {
    fn read_state(&mut self, _input_path: Option<&String>) -> Result<State, CliError> {
        match self.0.take() {
            Some(state) => Ok(state),
            None => Err(CliError::ReadStdin(String::from("closed"))),
        }
    }
}

struct Planner;

impl RuntimeNodeFn for Planner {
    fn run(&self, _state: &State, _runtime_context: &RuntimeContext) -> Result<NodeOutput, String> {
        Ok(NodeOutput::from_patch(StrMap::new()))
    }
}

#[test]
fn parse_args_reads_every_option() {
    let parsed = parse_args(args(&["bin", "run", "--graph", "g", "--input", "in.json", "--pretty", "--metadata", "--stream"]))
        .unwrap();
    let CliCommand::Run(run_args) = parsed;
    assert_eq!(
        run_args,
        RunArgs {
            graph: String::from("g"),
            input_path: Some(String::from("in.json")),
            pretty: true,
            include_metadata: true,
            stream: true,
        }
    );
    assert_eq!(parse_args(args(&["bin", "run"])).unwrap(), CliCommand::Run(RunArgs::default()));
}

#[test]
fn parse_args_reports_each_mistake() {
    assert_eq!(parse_args(args(&["bin"])).unwrap_err(), CliError::Usage);
    assert_eq!(parse_args(args(&["bin", "walk"])).unwrap_err(), CliError::UnknownCommand(String::from("walk")));
    assert_eq!(
        parse_args(args(&["bin", "run", "--graph"])).unwrap_err(),
        CliError::MissingOptionValue(String::from("--graph"))
    );
    assert_eq!(
        parse_args(args(&["bin", "run", "--input"])).unwrap_err(),
        CliError::MissingOptionValue(String::from("--input"))
    );
    assert_eq!(parse_args(args(&["bin", "run", "--bogus"])).unwrap_err(), CliError::UnknownOption(String::from("--bogus")));
    assert_eq!(parse_args(args(&["bin", "run", "stray"])).unwrap_err(), CliError::Usage);
}

#[test]
fn cli_error_messages_match_the_command_line_wording() {
    assert_eq!(CliError::UnknownCommand(String::from("walk")).message(), "unknown command `walk`, expected `run`");
    assert_eq!(CliError::MissingOptionValue(String::from("--graph")).message(), "missing value for option `--graph`");
    assert_eq!(CliError::UnknownGraphPreset(String::from("x")).message(), "unknown graph preset `x`");
    assert_eq!(
        CliError::GraphExecution(GraphError::MissingEntryPoint).message(),
        "graph execution failed: missing entry point"
    );
    assert!(CliError::Usage.message().starts_with("usage: langgraph-cli run"));
}

#[test]
fn run_refuses_pretty_stream_and_unknown_presets() {
    let mut source = FixedInput(Some(StrMap::new()));
    let mut sink = DiscardSink;
    let conflict = RunArgs { pretty: true, stream: true, ..RunArgs::default() };
    assert!(matches!(run(conflict, &mut source, &mut sink), Err(CliError::OptionConflict(m)) if m.contains("--pretty")));
    let unknown = RunArgs { graph: String::from("nope"), ..RunArgs::default() };
    assert_eq!(
        run(unknown, &mut source, &mut sink).err(),
        Some(CliError::UnknownGraphPreset(String::from("nope")))
    );
    assert!(build_graph("append_ab").is_ok());
}

#[test]
fn run_append_ab_appends_to_the_input_text() {
    let mut source = FixedInput(Some(map(vec![("text", text("prefix-"))])));
    let mut sink = DiscardSink;
    match run_with_args(args(&["bin", "run"]), &mut source, &mut sink).unwrap() {
        RunOutput::State { state, pretty } => {
            assert_eq!(state.get("text"), Some(&text("prefix-ab")));
            assert!(!pretty);
        }
        _ => panic!("expected a state"),
    }
}

#[test]
fn run_with_metadata_and_stream_give_their_outputs() {
    let mut source = FixedInput(Some(StrMap::new()));
    let mut sink = DiscardSink;
    match run_with_args(args(&["bin", "run", "--metadata"]), &mut source, &mut sink).unwrap() {
        RunOutput::Metadata { execution, .. } => {
            assert_eq!(execution.state.get("text"), Some(&text("ab")));
            assert_eq!(execution.metadata.supersteps, 2);
            assert!(execution.metadata.command_trace.is_empty());
        }
        _ => panic!("expected metadata"),
    }
    let mut source = FixedInput(Some(StrMap::new()));
    let mut collect = CollectSink { events: Vec::new() };
    assert!(matches!(run_with_args(args(&["bin", "run", "--stream"]), &mut source, &mut collect), Ok(RunOutput::Streamed)));
    assert!(collect.events.iter().any(|e| matches!(e, StreamEvent::NodeStarted { node, .. } if node == "node_a")));
    assert!(matches!(collect.events.last(), Some(StreamEvent::Completed { .. })));
}

#[test]
fn input_must_be_an_object() {
    assert!(state_from_input(None).unwrap().is_empty());
    assert_eq!(state_from_input(Some(map(vec![("a", Value::Number(1))]).into_value())).unwrap().get("a"), Some(&Value::Number(1)));
    assert_eq!(state_from_input(Some(Value::Number(3))).unwrap_err(), CliError::InputMustBeJsonObject);
}

trait IntoValue {
    fn into_value(self) -> Value;
}

impl IntoValue for StrMap<Value> {
    fn into_value(self) -> Value {
        Value::Object(self)
    }
}

#[test]
fn resolve_commands_merges_and_deduplicates_targets() {
    let policy = CommandPolicy::default();
    let commands = vec![
        Command::Goto(String::from("b")),
        Command::GotoMany(vec![String::from("a"), String::from("b")]),
    ];
    let resolved = resolve_commands("n", &commands, &policy).unwrap();
    assert!(!resolved.interrupted);
    assert_eq!(resolved.goto_targets, vec![String::from("a"), String::from("b")]);

    let keep = CommandPolicy { deduplicate_targets: false, ..CommandPolicy::default() };
    let kept = resolve_commands("n", &commands, &keep).unwrap();
    assert_eq!(kept.goto_targets, vec![String::from("b"), String::from("a"), String::from("b")]);

    let limited = CommandPolicy { max_goto_targets: 2, ..CommandPolicy::default() };
    let err = resolve_commands("n", &commands, &limited).unwrap_err();
    assert_eq!(err, "command policy max_goto_targets exceeded at node `n`: 3 > 2");

    let no_goto = CommandPolicy { allow_goto: false, ..CommandPolicy::default() };
    assert_eq!(resolve_commands("n", &commands, &no_goto).unwrap_err(), "command policy rejected Goto at node `n`");
}

#[test]
fn tool_node_reports_malformed_requests() {
    let node = ToolNode::new();
    let missing = node.run(&StrMap::new(), &StrMap::new()).unwrap();
    assert_eq!(missing.patch.get("tool_error"), Some(&text("missing tool request at key `tool_call`")));
    let not_object = node.run(&map(vec![("tool_call", text("x"))]), &StrMap::new()).unwrap();
    assert_eq!(not_object.patch.get("tool_error"), Some(&text("tool request `tool_call` must be a JSON object")));
    let unnamed = node.run(&map(vec![("tool_call", obj(vec![("name", text(""))]))]), &StrMap::new()).unwrap();
    assert_eq!(unnamed.patch.get("tool_error"), Some(&text("tool request is missing non-empty `name`")));

    let strict = ToolNode::new().with_error_strategy(ToolErrorStrategy::ReturnNodeError);
    assert_eq!(strict.run(&StrMap::new(), &StrMap::new()).unwrap_err(), "missing tool request at key `tool_call`");
}

#[test]
fn tool_node_finishes_with_result_or_error() {
    let node = ToolNode::new().with_result_key("out").with_error_key("err");
    let done = node.finish_invocation(Ok(Value::Number(7))).unwrap();
    assert_eq!(done.patch.get("out"), Some(&Value::Number(7)));
    assert_eq!(done.patch.get("err"), Some(&Value::Null));
    assert_eq!(done.patch.len(), 2);
    let failed = node.finish_invocation(Err(String::from("boom"))).unwrap();
    assert_eq!(failed.patch.get("err"), Some(&text("boom")));
    assert_eq!(failed.patch.get("out"), None);
}

#[test]
fn string_rules_check_presence_type_and_length() {
    let rule = ValidationRule::string_min_len("q", 3);
    assert_eq!(rule.validate(None).unwrap_err().code, "required");
    let wrong = rule.validate(Some(&Value::Number(1))).unwrap_err();
    assert_eq!(wrong.code, "type_error");
    assert_eq!(wrong.message, "field `q` must be a string");
    assert_eq!(rule.validate(Some(&text("ab"))).unwrap_err().message, "field `q` must be at least 3 characters");
    assert!(rule.validate(Some(&text("abc"))).is_ok());
    assert!(rule.validate(Some(&text("\u{e9}\u{e9}"))).is_ok());

    let required = ValidationRule::required("x");
    assert!(required.validate(Some(&Value::Null)).is_err());
    assert!(required.validate(Some(&Value::Bool(false))).is_ok());
    assert_eq!(required.field(), "x");
}

#[test]
fn composite_modes_combine_issues() {
    let issue = || ValidationIssue::new(Some("f"), "c", "m");
    let all = combine_issues(CompositeMode::All, vec![vec![issue()], vec![], vec![issue(), issue()]]);
    assert_eq!(all.len(), 3);
    let any = combine_issues(CompositeMode::Any, vec![vec![issue()], vec![], vec![issue()]]);
    assert!(any.is_empty());
    let none_pass = combine_issues(CompositeMode::Any, vec![vec![issue()], vec![issue()]]);
    assert_eq!(none_pass.len(), 2);
    assert!(combine_issues(CompositeMode::Any, vec![]).is_empty());
}

#[test]
fn issue_values_carry_field_code_and_message() {
    let value = ValidationIssue::new(None, "c", "m").to_value();
    assert_eq!(value, obj(vec![("field", Value::Null), ("code", text("c")), ("message", text("m"))]));
}

#[test]
fn agent_helpers_route_by_state() {
    let with_call = map(vec![("tool_call", obj(vec![("name", text("t"))]))]);
    assert!(has_tool_call(&with_call, "tool_call"));
    assert!(!has_tool_call(&map(vec![("tool_call", obj(vec![("name", text(""))]))]), "tool_call"));
    assert!(!has_tool_call(&map(vec![("tool_call", Value::Null)]), "tool_call"));
    assert!(has_validation_errors(&map(vec![("e", Value::Array(vec![text("x")]))]), "e"));
    assert!(!has_validation_errors(&map(vec![("e", Value::Array(vec![]))]), "e"));

    let routed = route_by_default(NodeOutput::from_patch(StrMap::new()), String::from("next"));
    assert_eq!(routed.commands, vec![Command::Goto(String::from("next"))]);
    let kept = route_by_default(NodeOutput::goto(StrMap::new(), "elsewhere"), String::from("next"));
    assert_eq!(kept.commands, vec![Command::Goto(String::from("elsewhere"))]);
    let paused = route_by_default(NodeOutput::interrupt(StrMap::new()), String::from("next"));
    assert_eq!(paused.commands, vec![Command::Interrupt]);
}

#[test]
fn agent_build_refuses_shared_node_names() {
    let names = ReactNodeNames {
        validate: String::from("validate"),
        planner: String::from("same"),
        tools: String::from("same"),
        finish: String::from("finish"),
    };
    let err = ReactAgentBuilder::new(Box::new(Planner), ToolNode::new()).with_node_names(names).build().err();
    assert!(matches!(err, Some(GraphError::DuplicateNode(n)) if n == "same"));
}

#[test]
fn graph_error_messages_describe_each_case() {
    assert_eq!(GraphError::DuplicateNode(String::from("a")).message(), "duplicate node: `a`");
    assert_eq!(
        GraphError::InvalidEdge { from: String::from("a"), to: String::from("b") }.message(),
        "invalid edge: `a` -> `b`"
    );
    assert_eq!(
        GraphError::ChannelMergeFailed { field: String::from("f"), reason: String::from("r") }.message(),
        "channel `f` merge failed: r"
    );
}
