//! The command line: `run [--graph <name>] [--input <path>] [--pretty]
//! [--metadata] [--stream]`, the graph presets it can run, and the decisions
//! of a run.  Reading the input and writing the output are the caller's.
use vstd::prelude::*;
use crate::channel::{BinaryOp, Slot};
use crate::command_policy::{default_policy, CommandPolicy};
use crate::error::{graph_error_message, GraphError};
use crate::executor::{metadata_ok, run_events, MetadataView, run_fails, run_interrupts, run_metadata, run_outcome, EventSink, ExecutionResult, SequentialExecutor};
use crate::graph::{has_edge, is_path, reachable, CompiledGraph, GraphNode, StateGraph, StateNodeFn};
use crate::runtime::names_view;
use crate::json::{Json, StrMap, Value};
use crate::state::{json_map, State, StatePatch};
use crate::text::{concat3, owned, starts_with, str_eq};

verus! {

#[derive(Debug, PartialEq, Eq)]
pub struct RunArgs {
    pub graph: String,
    pub input_path: Option<String>,
    pub pretty: bool,
    pub include_metadata: bool,
    pub stream: bool,
}

impl Default for RunArgs {
    /// The `append_ab` graph, input from standard input, plain output.
    fn default() -> (r: Self)
        ensures
            r.graph@ == "append_ab"@,
            r.input_path is None,
            !r.pretty,
            !r.include_metadata,
            !r.stream,
    {
        RunArgs { graph: owned("append_ab"), input_path: None, pretty: false, include_metadata: false, stream: false }
    }
}

#[derive(Debug, PartialEq, Eq)]
pub enum Command {
    Run(RunArgs),
}

#[derive(Debug, PartialEq)]
pub enum CliError {
    Usage,
    UnknownCommand(String),
    MissingOptionValue(String),
    UnknownOption(String),
    ReadInputFile { path: String, reason: String },
    ReadStdin(String),
    InputMustBeJsonObject,
    ParseInputJson(String),
    SerializeOutputJson(String),
    UnknownGraphPreset(String),
    GraphCompile(GraphError),
    GraphExecution(GraphError),
    RuntimeInit(String),
    WriteStdout(String),
    OptionConflict(String),
}

/// The usage line.
pub open spec fn usage_message() -> Seq<char> {
    "usage: langgraph-cli run [--graph <name>] [--input <path>] [--pretty] [--metadata] [--stream]"@
}

/// The description of a command-line error.
pub open spec fn cli_error_message(e: CliError) -> Seq<char> {
    match e {
        CliError::Usage => usage_message(),
        CliError::UnknownCommand(c) => "unknown command `"@ + c@ + "`, expected `run`"@,
        CliError::MissingOptionValue(o) => "missing value for option `"@ + o@ + "`"@,
        CliError::UnknownOption(o) => "unknown option `"@ + o@ + "`"@,
        CliError::ReadInputFile { path, reason } => "failed to read input file `"@ + path@ + "`: "@ + reason@,
        CliError::ReadStdin(m) => "failed to read stdin: "@ + m@,
        CliError::InputMustBeJsonObject => "input must be a JSON object"@,
        CliError::ParseInputJson(m) => "failed to parse input JSON: "@ + m@,
        CliError::SerializeOutputJson(m) => "failed to serialize output JSON: "@ + m@,
        CliError::UnknownGraphPreset(n) => "unknown graph preset `"@ + n@ + "`"@,
        CliError::GraphCompile(g) => "graph compile failed: "@ + graph_error_message(g@),
        CliError::GraphExecution(g) => "graph execution failed: "@ + graph_error_message(g@),
        CliError::RuntimeInit(m) => "failed to initialize async runtime: "@ + m@,
        CliError::WriteStdout(m) => "failed to write stream output to stdout: "@ + m@,
        CliError::OptionConflict(m) => "option conflict: "@ + m@,
    }
}

impl CliError {
    /// The human-readable description of the error.
    pub fn message(&self) -> (m: String)
        ensures
            m@ == cli_error_message(*self),
    {
        match self {
            CliError::Usage => owned(
                "usage: langgraph-cli run [--graph <name>] [--input <path>] [--pretty] [--metadata] [--stream]",
            ),
            CliError::UnknownCommand(c) => concat3("unknown command `", c.as_str(), "`, expected `run`"),
            CliError::MissingOptionValue(o) => concat3("missing value for option `", o.as_str(), "`"),
            CliError::UnknownOption(o) => concat3("unknown option `", o.as_str(), "`"),
            CliError::ReadInputFile { path, reason } => {
                let mut m = concat3("failed to read input file `", path.as_str(), "`: ");
                m.append(reason.as_str());
                m
            },
            CliError::ReadStdin(m) => crate::text::concat("failed to read stdin: ", m.as_str()),
            CliError::InputMustBeJsonObject => owned("input must be a JSON object"),
            CliError::ParseInputJson(m) => crate::text::concat("failed to parse input JSON: ", m.as_str()),
            CliError::SerializeOutputJson(m) => crate::text::concat("failed to serialize output JSON: ", m.as_str()),
            CliError::UnknownGraphPreset(n) => concat3("unknown graph preset `", n.as_str(), "`"),
            CliError::GraphCompile(g) => {
                let inner = g.message();
                crate::text::concat("graph compile failed: ", inner.as_str())
            },
            CliError::GraphExecution(g) => {
                let inner = g.message();
                crate::text::concat("graph execution failed: ", inner.as_str())
            },
            CliError::RuntimeInit(m) => crate::text::concat("failed to initialize async runtime: ", m.as_str()),
            CliError::WriteStdout(m) => crate::text::concat("failed to write stream output to stdout: ", m.as_str()),
            CliError::OptionConflict(m) => crate::text::concat("option conflict: ", m.as_str()),
        }
    }
}

/// The options of a run, by their characters.
pub struct RunArgsView {
    pub graph: Seq<char>,
    pub input_path: Option<Seq<char>>,
    pub pretty: bool,
    pub include_metadata: bool,
    pub stream: bool,
}

impl View for RunArgs {
    type V = RunArgsView;

    open spec fn view(&self) -> RunArgsView {
        RunArgsView {
            graph: self.graph@,
            input_path: match self.input_path {
                Some(p) => Some(p@),
                None => None,
            },
            pretty: self.pretty,
            include_metadata: self.include_metadata,
            stream: self.stream,
        }
    }
}

/// What a command-line error says, by the characters of its arguments.
pub enum ArgsErrorView {
    Usage,
    UnknownCommand(Seq<char>),
    MissingOptionValue(Seq<char>),
    UnknownOption(Seq<char>),
}

/// Whether `t` starts with `--`.
pub open spec fn is_option(t: Seq<char>) -> bool {
    "--"@.len() <= t.len() && t.subrange(0, "--"@.len() as int) == "--"@
}

/// What the options `tokens` make of `acc`: each option in turn, a value
/// option taking the token after it.
pub open spec fn parse_options(tokens: Seq<Seq<char>>, acc: RunArgsView) -> Result<RunArgsView, ArgsErrorView>
    decreases tokens.len(),
{
    if tokens.len() == 0 {
        Ok(acc)
    } else {
        let t = tokens[0];
        if t == "--graph"@ {
            if tokens.len() < 2 {
                Err(ArgsErrorView::MissingOptionValue("--graph"@))
            } else {
                parse_options(tokens.subrange(2, tokens.len() as int), RunArgsView { graph: tokens[1], ..acc })
            }
        } else if t == "--input"@ {
            if tokens.len() < 2 {
                Err(ArgsErrorView::MissingOptionValue("--input"@))
            } else {
                parse_options(
                    tokens.subrange(2, tokens.len() as int),
                    RunArgsView { input_path: Some(tokens[1]), ..acc },
                )
            }
        } else if t == "--pretty"@ {
            parse_options(tokens.drop_first(), RunArgsView { pretty: true, ..acc })
        } else if t == "--metadata"@ {
            parse_options(tokens.drop_first(), RunArgsView { include_metadata: true, ..acc })
        } else if t == "--stream"@ {
            parse_options(tokens.drop_first(), RunArgsView { stream: true, ..acc })
        } else if is_option(t) {
            Err(ArgsErrorView::UnknownOption(t))
        } else {
            Err(ArgsErrorView::Usage)
        }
    }
}

/// Whether an option takes the token after it as its value.
pub open spec fn takes_value(t: Seq<char>) -> bool {
    t == "--graph"@ || t == "--input"@
}

/// Whether the token at `i` stands where an option's name is read: the
/// first token, and each token after an option's name, or after the value
/// of an option that takes one.
pub open spec fn option_at(tokens: Seq<Seq<char>>, i: int) -> bool
    decreases tokens.len(),
{
    if tokens.len() == 0 || i < 0 {
        false
    } else if i == 0 {
        true
    } else if takes_value(tokens[0]) {
        if tokens.len() < 2 {
            false
        } else {
            option_at(tokens.subrange(2, tokens.len() as int), i - 2)
        }
    } else {
        option_at(tokens.drop_first(), i - 1)
    }
}

/// Whether the flag `f` is given among `tokens` as an option (not as the
/// value of another option).
pub open spec fn flag_given(tokens: Seq<Seq<char>>, f: Seq<char>) -> bool {
    exists|i: int| 0 <= i < tokens.len() && #[trigger] option_at(tokens, i) && tokens[i] == f
}

proof fn lemma_option_names_differ()
    ensures
        "--graph"@ != "--stream"@,
        "--graph"@ != "--pretty"@,
        "--graph"@ != "--metadata"@,
        "--input"@ != "--stream"@,
        "--input"@ != "--pretty"@,
        "--input"@ != "--metadata"@,
        "--pretty"@ != "--stream"@,
        "--pretty"@ != "--metadata"@,
        "--metadata"@ != "--stream"@,
{
    reveal_strlit("--graph");
    reveal_strlit("--input");
    reveal_strlit("--pretty");
    reveal_strlit("--metadata");
    reveal_strlit("--stream");
    assert("--pretty"@[2] != "--stream"@[2]);
    assert("--graph"@.len() != "--stream"@.len());
    assert("--graph"@.len() != "--pretty"@.len());
    assert("--graph"@.len() != "--metadata"@.len());
    assert("--input"@.len() != "--stream"@.len());
    assert("--input"@.len() != "--pretty"@.len());
    assert("--input"@.len() != "--metadata"@.len());
    assert("--pretty"@.len() != "--metadata"@.len());
    assert("--metadata"@.len() != "--stream"@.len());
}

proof fn lemma_flag_given_step(tokens: Seq<Seq<char>>, f: Seq<char>, d: int)
    requires
        tokens.len() >= d,
        d == 1 || d == 2,
        takes_value(tokens[0]) <==> d == 2,
    ensures
        flag_given(tokens, f) <==> (tokens[0] == f || flag_given(tokens.subrange(d, tokens.len() as int), f)),
{
    let rest = tokens.subrange(d, tokens.len() as int);
    assert(option_at(tokens, 0));
    assert forall|i: int| 0 <= i < rest.len() implies (#[trigger] option_at(rest, i) <==> option_at(
        tokens,
        i + d,
    )) && rest[i] == tokens[i + d] by {
        if d == 1 {
            assert(rest =~= tokens.drop_first());
        }
    }
    if flag_given(tokens, f) && tokens[0] != f {
        let i = choose|i: int| 0 <= i < tokens.len() && #[trigger] option_at(tokens, i) && tokens[i] == f;
        if d == 2 && i == 1 {
            assert(!option_at(rest, -1));
            assert(!option_at(tokens, 1));
        }
        assert(option_at(rest, i - d));
    }
    if flag_given(rest, f) {
        let i = choose|i: int| 0 <= i < rest.len() && #[trigger] option_at(rest, i) && rest[i] == f;
        assert(option_at(tokens, i + d));
    }
}

/// Each flag sets only its own field: after the options `tokens` have been
/// read into `acc`, `stream`, `pretty` and `include_metadata` each hold
/// exactly when they held before or their own flag (`--stream`, `--pretty`,
/// `--metadata`) is given among the options, whatever the other options
/// and their order.
pub proof fn law_flags_set_their_own_fields(tokens: Seq<Seq<char>>, acc: RunArgsView)
    ensures
        parse_options(tokens, acc) matches Ok(r) ==> r.stream == (acc.stream || flag_given(tokens, "--stream"@))
            && r.pretty == (acc.pretty || flag_given(tokens, "--pretty"@)) && r.include_metadata == (
        acc.include_metadata || flag_given(tokens, "--metadata"@)),
    decreases tokens.len(),
{
    lemma_option_names_differ();
    if tokens.len() > 0 {
        let t = tokens[0];
        if takes_value(t) {
            if tokens.len() >= 2 {
                let rest = tokens.subrange(2, tokens.len() as int);
                if t == "--graph"@ {
                    law_flags_set_their_own_fields(rest, RunArgsView { graph: tokens[1], ..acc });
                } else {
                    law_flags_set_their_own_fields(rest, RunArgsView { input_path: Some(tokens[1]), ..acc });
                }
                lemma_flag_given_step(tokens, "--stream"@, 2);
                lemma_flag_given_step(tokens, "--pretty"@, 2);
                lemma_flag_given_step(tokens, "--metadata"@, 2);
            }
        } else {
            let rest = tokens.drop_first();
            assert(rest =~= tokens.subrange(1, tokens.len() as int));
            law_flags_set_their_own_fields(rest, RunArgsView { pretty: true, ..acc });
            law_flags_set_their_own_fields(rest, RunArgsView { include_metadata: true, ..acc });
            law_flags_set_their_own_fields(rest, RunArgsView { stream: true, ..acc });
            lemma_flag_given_step(tokens, "--stream"@, 1);
            lemma_flag_given_step(tokens, "--pretty"@, 1);
            lemma_flag_given_step(tokens, "--metadata"@, 1);
        }
    }
}

/// On a command line that parses, each of `--stream`, `--pretty` and
/// `--metadata` is on exactly when that flag is given among the options
/// after `run`.
pub proof fn law_run_flags(args: Seq<Seq<char>>)
    ensures
        parse_args_spec(args) matches Ok(r) ==> r.stream == flag_given(args.subrange(2, args.len() as int), "--stream"@)
            && r.pretty == flag_given(args.subrange(2, args.len() as int), "--pretty"@) && r.include_metadata
            == flag_given(args.subrange(2, args.len() as int), "--metadata"@),
{
    if args.len() >= 2 {
        law_flags_set_their_own_fields(args.subrange(2, args.len() as int), default_run_args());
    }
}

/// The options a run starts from.
pub open spec fn default_run_args() -> RunArgsView {
    RunArgsView { graph: "append_ab"@, input_path: None, pretty: false, include_metadata: false, stream: false }
}

/// What the arguments (the program's name first) ask for.
pub open spec fn parse_args_spec(args: Seq<Seq<char>>) -> Result<RunArgsView, ArgsErrorView> {
    if args.len() < 2 {
        Err(ArgsErrorView::Usage)
    } else if args[1] != "run"@ {
        Err(ArgsErrorView::UnknownCommand(args[1]))
    } else {
        parse_options(args.subrange(2, args.len() as int), default_run_args())
    }
}

/// The characters of each argument.
pub open spec fn args_view(args: Seq<String>) -> Seq<Seq<char>> {
    args.map_values(|s: String| s@)
}

/// Whether a parse error is the one described.
pub open spec fn args_error_is(e: CliError, v: ArgsErrorView) -> bool {
    match v {
        ArgsErrorView::Usage => e is Usage,
        ArgsErrorView::UnknownCommand(c) => e matches CliError::UnknownCommand(x) && x@ == c,
        ArgsErrorView::MissingOptionValue(o) => e matches CliError::MissingOptionValue(x) && x@ == o,
        ArgsErrorView::UnknownOption(o) => e matches CliError::UnknownOption(x) && x@ == o,
    }
}

/// Parses the command line, the program's name first.
pub fn parse_args(args: Vec<String>) -> (r: Result<Command, CliError>)
    ensures
        match parse_args_spec(args_view(args@)) {
            Ok(v) => r matches Ok(Command::Run(a)) && a@ == v,
            Err(v) => r matches Err(e) && args_error_is(e, v),
        },
{
    let ghost all = args_view(args@);
    let n = args.len();
    if n < 2 {
        return Err(CliError::Usage);
    }
    proof {
        assert(all[1] == args@[1]@);
    }
    if !str_eq(args[1].as_str(), "run") {
        return Err(CliError::UnknownCommand(args[1].clone()));
    }
    let mut run = RunArgs::default();
    let mut i: usize = 2;
    while i < n
        invariant
            n == args@.len(),
            all == args_view(args@),
            2 <= i <= n,
            parse_args_spec(all) == parse_options(all.subrange(i as int, n as int), run@),
        decreases n - i,
    {
        let token = args[i].as_str();
        let ghost rest = all.subrange(i as int, n as int);
        proof {
            assert(rest[0] == token@);
            assert(rest.drop_first() =~= all.subrange(i + 1, n as int));
        }
        if str_eq(token, "--graph") || str_eq(token, "--input") {
            if i + 1 >= n {
                if str_eq(token, "--graph") {
                    return Err(CliError::MissingOptionValue(owned("--graph")));
                } else {
                    return Err(CliError::MissingOptionValue(owned("--input")));
                }
            }
            proof {
                assert(rest[1] == args@[i + 1]@);
                assert(rest.subrange(2, rest.len() as int) =~= all.subrange(i + 2, n as int));
            }
            if str_eq(token, "--graph") {
                run.graph = args[i + 1].clone();
            } else {
                run.input_path = Some(args[i + 1].clone());
            }
            i = i + 2;
        } else if str_eq(token, "--pretty") {
            run.pretty = true;
            i = i + 1;
        } else if str_eq(token, "--metadata") {
            run.include_metadata = true;
            i = i + 1;
        } else if str_eq(token, "--stream") {
            run.stream = true;
            i = i + 1;
        } else if starts_with(token, "--") {
            return Err(CliError::UnknownOption(owned(token)));
        } else {
            return Err(CliError::Usage);
        }
    }
    proof {
        assert(all.subrange(n as int, n as int).len() == 0);
    }
    Ok(Command::Run(run))
}

/// A node that writes a fixed text to a field.
pub struct WriteText {
    pub field: String,
    pub text: String,
}

impl StateNodeFn for WriteText {
    /// The patch writing the text to the field.
    open spec fn yields(&self, state: Map<Seq<char>, Value>, r: Result<StatePatch, String>) -> bool {
        r matches Ok(p) && json_map(p) == Map::<Seq<char>, Json>::empty().insert(self.field@, Json::Text(self.text@))
    }

    fn run(&self, state: &State) -> (r: Result<StatePatch, String>)
        ensures
            r matches Ok(p) && json_map(p) == Map::<Seq<char>, Json>::empty().insert(self.field@, Json::Text(self.text@)),
    {
        let mut patch = StrMap::new();
        patch.insert(self.field.clone(), Value::String(self.text.clone()));
        proof {
            assert(json_map(patch) =~= Map::<Seq<char>, Json>::empty().insert(self.field@, Json::Text(self.text@)));
        }
        Ok(patch)
    }
}

/// The text of a string value; empty for any other value.
pub open spec fn text_or_empty(v: Value) -> Seq<char> {
    match v {
        Value::String(s) => s@,
        _ => Seq::empty(),
    }
}

/// Joins two values as texts (a value that is not a string counts as the
/// empty text).
pub struct ConcatText;

/// The text of a JSON value; empty for any other value.
pub open spec fn json_text_or_empty(j: Json) -> Seq<char> {
    match j {
        Json::Text(t) => t,
        _ => Seq::empty(),
    }
}

impl BinaryOp for ConcatText {
    /// The two texts joined.
    open spec fn applies(&self, left: Json, right: Json, out: Json) -> bool {
        out == Json::Text(json_text_or_empty(left) + json_text_or_empty(right))
    }

    fn apply(&self, left: &Value, right: &Value) -> (r: Value)
        ensures
            r@ == Json::Text(text_or_empty(*left) + text_or_empty(*right)),
    {
        let mut out = String::new();
        match left {
            Value::String(s) => out.append(s.as_str()),
            _ => {},
        }
        match right {
            Value::String(s) => out.append(s.as_str()),
            _ => {},
        }
        proof {
            assert(out@ =~= text_or_empty(*left) + text_or_empty(*right));
        }
        Value::String(out)
    }
}

/// The node writing `text` to `field`.
fn write_text_node(field: &str, text: &str) -> (r: WriteText)
    ensures
        r.field@ == field@,
        r.text@ == text@,
{
    WriteText { field: owned(field), text: owned(text) }
}

/// The reducer joining texts.
fn concat_text_reducer() -> (r: ConcatText) {
    ConcatText
}

/// Whether `r` is a patch that writes `text` to `field` and nothing else.
pub open spec fn writes_text(r: Result<StatePatch, String>, field: Seq<char>, text: Seq<char>) -> bool {
    r matches Ok(p) && json_map(p) == Map::<Seq<char>, Json>::empty().insert(field, Json::Text(text))
}

/// The `append_ab` graph: nodes `node_a`, which writes `a` to `text`, and
/// `node_b`, which writes `b`; one edge from `node_a` to `node_b`, no
/// conditional edges, a reducer on `text` that joins the texts, no
/// channels, entry at `node_a` and finish at `node_b`.
pub open spec fn append_ab_shape(g: CompiledGraph) -> bool {
    &&& g.nodes@.dom() == set!["node_a"@, "node_b"@]
    &&& (g.nodes@["node_a"@] matches GraphNode::Plain(s) && forall|st: Map<Seq<char>, Value>, r: Result<StatePatch, String>|
        #[trigger] s.0.yields(st, r) <==> writes_text(r, "text"@, "a"@))
    &&& (g.nodes@["node_b"@] matches GraphNode::Plain(s) && forall|st: Map<Seq<char>, Value>, r: Result<StatePatch, String>|
        #[trigger] s.0.yields(st, r) <==> writes_text(r, "text"@, "b"@))
    &&& forall|l: Json, w: Json, o: Json| #[trigger] g.reducers@["text"@].0.applies(l, w, o) <==> o == Json::Text(
        json_text_or_empty(l) + json_text_or_empty(w),
    )
    &&& g.adjacency@.dom() == set!["node_a"@]
    &&& names_view(g.adjacency@["node_a"@]@) == seq!["node_b"@]
    &&& g.conditional_edges@.dom() == Set::<Seq<char>>::empty()
    &&& g.reducers@.dom() == set!["text"@]
    &&& g.channels@.dom() == Set::<Seq<char>>::empty()
    &&& g.entry_point@ == "node_a"@
    &&& g.finish_point@ == "node_b"@
}

/// The `append_ab` graph: `node_a` writes `a` to `text`, then `node_b`
/// writes `b`; the writes to `text` are joined to what it holds.
pub fn build_append_ab_graph() -> (r: Result<CompiledGraph, GraphError>)
    ensures
        r is Ok,
        r matches Ok(g) ==> append_ab_shape(g),
{
    let mut graph = StateGraph::new();
    let ghost empty_edges = graph.edge_list();
    let ghost empty_conds = graph.cond_list();
    proof {
        reveal_strlit("node_a");
        reveal_strlit("node_b");
        assert("node_a"@[5] != "node_b"@[5]);
    }
    let write_a = write_text_node("text", "a");
    let write_b = write_text_node("text", "b");
    let ghost wa = write_a;
    let ghost wb = write_b;
    let node_a: crate::graph::NodeAction = Box::new(write_a);
    let node_b: crate::graph::NodeAction = Box::new(write_b);
    proof {
        reveal_strlit("text");
        reveal_strlit("a");
        reveal_strlit("b");
        assert forall|st: Map<Seq<char>, Value>, r: Result<StatePatch, String>| #[trigger] node_a.yields(st, r)
            <==> writes_text(r, "text"@, "a"@) by {
            assert(node_a.yields(st, r) == wa.yields(st, r));
        }
        assert forall|st: Map<Seq<char>, Value>, r: Result<StatePatch, String>| #[trigger] node_b.yields(st, r)
            <==> writes_text(r, "text"@, "b"@) by {
            assert(node_b.yields(st, r) == wb.yields(st, r));
        }
    }
    let ghost na = node_a;
    let ghost nb = node_b;
    let held_a = Slot(node_a);
    assert(held_a.0 == na);
    let held_b = Slot(node_b);
    assert(held_b.0 == nb);
    let ra = graph.add_held_node("node_a", held_a);
    let rb = graph.add_held_node("node_b", held_b);
    let _ = graph.add_edge("node_a", "node_b");
    graph.set_entry_point("node_a");
    graph.set_finish_point("node_b");
    let concat = concat_text_reducer();
    let ghost cg = concat;
    let reducer: crate::state::ReducerFn = Box::new(concat);
    let ghost rg = reducer;
    proof {
        assert forall|l: Json, w: Json, o: Json| #[trigger] reducer.applies(l, w, o) <==> o == Json::Text(
            json_text_or_empty(l) + json_text_or_empty(w),
        ) by {
            assert(reducer.applies(l, w, o) == cg.applies(l, w, o));
        }
    }
    let held_reducer = Slot(reducer);
    assert(held_reducer.0 == rg);
    graph.add_held_reducer("text", held_reducer);
    proof {
        let a = "node_a"@;
        let b = "node_b"@;
        let nodes = graph.node_names();
        let edges = graph.edge_list();
        let conds = graph.cond_list();
        assert(edges =~= Seq::<(Seq<char>, Seq<char>)>::empty().push((a, b)));
        assert(conds =~= Seq::<(Seq<char>, Seq<Seq<char>>)>::empty());
        assert(nodes.contains(a) && nodes.contains(b));
        assert(crate::graph::first_bad_edge(edges, nodes, 1) is None);
        assert(crate::graph::first_bad_edge(edges, nodes, 0) is None);
        assert(crate::graph::first_cond_fault(conds, nodes, 0) is None);
        assert(!crate::graph::has_outgoing(edges, conds, b));
        let path = Seq::<Seq<char>>::empty().push(a).push(b);
        assert(has_edge(edges, conds, a, b));
        assert(is_path(edges, conds, path));
        assert(path[0] == a && path.last() == b);
        assert(reachable(edges, conds, a, b));
        assert(nodes =~= set![a, b]);
        assert(graph.reducer_fields() =~= set!["text"@]);
        assert(graph.channel_fields() =~= Set::<Seq<char>>::empty());
    }
    let ghost edges = graph.edge_list();
    let ghost conds = graph.cond_list();
    let ghost nodes_before = graph.node_map();
    let ghost reducers_before = graph.reducer_map();
    proof {
        assert(nodes_before["node_a"@]->Plain_0.0 == na);
        assert(nodes_before["node_b"@]->Plain_0.0 == nb);
        assert(reducers_before["text"@].0 == rg);
    }
    let r = graph.compile();
    proof {
        if r is Ok {
            let g = r->Ok_0;
            let a = "node_a"@;
            let b = "node_b"@;
            assert forall|u: Seq<char>| g.adjacency@.dom().contains(u) <==> set![a].contains(u) by {
                if g.adjacency@.contains_key(u) {
                    assert(crate::graph::is_edge_source(edges, u));
                }
                if u == a {
                    assert(edges[0].0 == a);
                    assert(crate::graph::is_edge_source(edges, u));
                }
            }
            assert(g.adjacency@.dom() =~= set![a]);
            assert(g.adjacency@.contains_key(a));
            reveal_with_fuel(crate::graph::edge_targets, 2);
            assert(edges.drop_last() =~= Seq::<(Seq<char>, Seq<char>)>::empty());
            assert(crate::graph::edge_targets(edges, a) =~= seq![b]);
            assert forall|u: Seq<char>| !g.conditional_edges@.dom().contains(u) by {
                if g.conditional_edges@.contains_key(u) {
                    assert(crate::graph::is_cond_source(conds, u));
                }
            }
            assert(g.conditional_edges@.dom() =~= Set::<Seq<char>>::empty());
        }
    }
    r
}

/// The graph preset named `name`.
pub fn build_graph(name: &str) -> (r: Result<CompiledGraph, CliError>)
    ensures
        r is Ok <==> name@ == "append_ab"@,
        r matches Ok(g) ==> append_ab_shape(g),
        r matches Err(e) ==> e matches CliError::UnknownGraphPreset(n) && n@ == name@,
{
    if str_eq(name, "append_ab") {
        match build_append_ab_graph() {
            Ok(g) => Ok(g),
            Err(e) => Err(CliError::GraphCompile(e)),
        }
    } else {
        Err(CliError::UnknownGraphPreset(owned(name)))
    }
}

/// The state given as input: nothing (blank input) is the empty state; an
/// object is the state; anything else is refused.
pub fn state_from_input(input: Option<Value>) -> (r: Result<State, CliError>)
    ensures
        input is None ==> (r matches Ok(s) && s@ == Map::<Seq<char>, Value>::empty()),
        input matches Some(Value::Object(m)) ==> (r matches Ok(s) && s == m),
        input matches Some(v) && !(v is Object) ==> (r matches Err(e) && e is InputMustBeJsonObject),
{
    match input {
        None => Ok(StrMap::new()),
        Some(Value::Object(m)) => Ok(m),
        Some(_) => Err(CliError::InputMustBeJsonObject),
    }
}

/// Where a run reads its input state from.
pub trait InputSource {
    /// Whether `r` may be what the source gives for `input_path`.  A source
    /// that does not say more promises nothing.
    open spec fn supplies(&self, input_path: Option<Seq<char>>, r: Result<State, CliError>) -> bool {
        true
    }

    fn read_state(&mut self, input_path: Option<&String>) -> (r: Result<State, CliError>)
        ensures
            old(self).supplies(
                match input_path {
                    Some(p) => Some(p@),
                    None => None,
                },
                r,
            ),
    ;
}

/// What a run produces for the caller to print.
pub enum RunOutput {
    State { state: State, pretty: bool },
    Metadata { execution: ExecutionResult, pretty: bool },
    Streamed,
}

/// The message of `--pretty` together with `--stream`.
pub open spec fn pretty_stream_conflict() -> Seq<char> {
    "`--pretty` cannot be used with `--stream` (stream output is JSONL)"@
}

/// What a run with options `a` gives back, once it has its input.
pub open spec fn run_outcome_ok(a: RunArgsView, r: Result<RunOutput, CliError>) -> bool {
    &&& a.pretty && a.stream ==> (r matches Err(CliError::OptionConflict(m)) && m@ == pretty_stream_conflict())
    &&& !(a.pretty && a.stream) && a.graph != "append_ab"@ ==> (r matches Err(CliError::UnknownGraphPreset(n))
        && n@ == a.graph)
    &&& r matches Ok(out) ==> match out {
        RunOutput::Streamed => a.stream,
        RunOutput::Metadata { pretty, .. } => !a.stream && a.include_metadata && pretty == a.pretty,
        RunOutput::State { pretty, .. } => !a.stream && !a.include_metadata && pretty == a.pretty,
    }
}

/// What a run with options `a` did with its input source and sink: with
/// conflicting options or an unknown graph it touched neither; otherwise
/// it ran the graph on the state the source gave, and the state (and the
/// metadata: superstep count, versions, command trace) it hands back are
/// those of that run; a streamed run handed a
/// recording sink that accepts every event the events of that run; and a
/// failed run fails as the run does (or as the source did).
pub open spec fn run_effects<R: InputSource, S: EventSink>(
    a: RunArgsView,
    source_before: R,
    source_after: R,
    sink_before: S,
    sink_after: S,
    r: Result<RunOutput, CliError>,
) -> bool {
    &&& (a.pretty && a.stream) || a.graph != "append_ab"@ ==> source_after == source_before && sink_after
        == sink_before
    &&& r matches Ok(RunOutput::State { state, .. }) ==> exists|g: CompiledGraph, input: State|
        #[trigger] source_before.supplies(a.input_path, Ok(input)) && #[trigger] append_ab_shape(g) && run_outcome(
            g,
            default_policy(),
            Map::empty(),
            input@,
            state@,
            None,
            true,
        )
    &&& r matches Ok(RunOutput::Metadata { execution, .. }) ==> exists|g: CompiledGraph, input: State|
        #[trigger] source_before.supplies(a.input_path, Ok(input)) && #[trigger] append_ab_shape(g) && run_outcome(
            g,
            default_policy(),
            Map::empty(),
            input@,
            execution.state@,
            None,
            true,
        ) && run_metadata(
            g,
            default_policy(),
            Map::empty(),
            input@,
            execution.state@,
            Map::empty(),
            execution.metadata,
        ) && metadata_ok(g, Map::empty(), execution.metadata)
    &&& r matches Ok(RunOutput::Streamed) ==> (sink_before.accepts_all() && sink_before.records() ==> exists|
        g: CompiledGraph,
        input: State,
        state: Map<Seq<char>, Value>,
        metadata: MetadataView,
    |
        #[trigger] source_before.supplies(a.input_path, Ok(input)) && #[trigger] append_ab_shape(g) && #[trigger] run_events(
            g,
            default_policy(),
            Map::empty(),
            input@,
            sink_before.received(),
            sink_after.received(),
            state,
            metadata,
        ))
    &&& r matches Err(CliError::GraphExecution(e)) ==> source_before.supplies(
        a.input_path,
        Err(CliError::GraphExecution(e)),
    ) || exists|g: CompiledGraph, input: State|
        #[trigger] source_before.supplies(a.input_path, Ok(input)) && #[trigger] append_ab_shape(g) && (run_fails(
            g,
            default_policy(),
            Map::empty(),
            input@,
            e,
        ) || (e matches GraphError::Interrupted { node } && run_interrupts(
            g,
            default_policy(),
            Map::empty(),
            input@,
            node@,
        )))
}

/// Runs a preset graph: checks the options, reads the input from `source`
/// and runs; a streamed run reports its events to `sink` as they happen.
pub fn run<R: InputSource, S: EventSink>(args: RunArgs, source: &mut R, sink: &mut S) -> (r: Result<RunOutput, CliError>)
    ensures
        run_outcome_ok(args@, r),
        run_effects(args@, *old(source), *final(source), *old(sink), *final(sink), r),
{
    if args.pretty && args.stream {
        return Err(CliError::OptionConflict(owned("`--pretty` cannot be used with `--stream` (stream output is JSONL)")));
    }
    let graph = build_graph(args.graph.as_str())?;
    let ghost src0 = *source;
    let input = source.read_state(args.input_path.as_ref())?;
    proof {
        assert(src0.supplies(args@.input_path, Ok(input)));
    }
    let executor = SequentialExecutor;
    if args.stream {
        let policy = CommandPolicy::default();
        match executor.run_with_sink(&graph, input, &StrMap::new(), StrMap::new(), &policy, sink) {
            Ok(_) => return Ok(RunOutput::Streamed),
            Err(e) => return Err(CliError::GraphExecution(e)),
        }
    }
    if args.include_metadata {
        match executor.invoke_with_metadata(&graph, input) {
            Ok(execution) => return Ok(RunOutput::Metadata { execution, pretty: args.pretty }),
            Err(e) => return Err(CliError::GraphExecution(e)),
        }
    }
    match executor.invoke(&graph, input) {
        Ok(state) => Ok(RunOutput::State { state, pretty: args.pretty }),
        Err(e) => Err(CliError::GraphExecution(e)),
    }
}

/// Carries out a parsed command.
pub fn execute<R: InputSource, S: EventSink>(command: Command, source: &mut R, sink: &mut S) -> (r: Result<
    RunOutput,
    CliError,
>)
    ensures
        command matches Command::Run(a) && run_outcome_ok(a@, r) && run_effects(
            a@,
            *old(source),
            *final(source),
            *old(sink),
            *final(sink),
            r,
        ),
{
    match command {
        Command::Run(args) => run(args, source, sink),
    }
}

/// Parses the command line (the program's name first) and carries it out.
pub fn run_with_args<R: InputSource, S: EventSink>(args: Vec<String>, source: &mut R, sink: &mut S) -> (r: Result<
    RunOutput,
    CliError,
>)
    ensures
        match parse_args_spec(args_view(args@)) {
            Ok(a) => run_outcome_ok(a, r) && run_effects(a, *old(source), *final(source), *old(sink), *final(sink), r),
            Err(v) => r matches Err(e) && args_error_is(e, v) && *final(source) == *old(source) && *final(sink)
                == *old(sink),
        },
{
    let command = parse_args(args)?;
    execute(command, source, sink)
}

} // verus!
