//! Errors of graph construction and execution.
use vstd::prelude::*;
use crate::text::{concat, concat3, concat5, owned};

verus! {

#[derive(Debug, PartialEq)]
pub enum GraphError {
    DuplicateNode(String),
    NodeNotFound(String),
    MissingEntryPoint,
    MissingFinishPoint,
    FinishHasOutgoingEdges(String),
    InvalidEdge { from: String, to: String },
    InvalidConditionalSource(String),
    DuplicateConditionalSource(String),
    InvalidConditionalTarget { from: String, to: String },
    AmbiguousRoute(String),
    DidNotReachFinish(String),
    NodeExecutionFailed { node: String, reason: String },
    Interrupted { node: String },
    CommandRejected { node: String, reason: String },
    InvalidGotoTarget { node: String, target: String },
    ChannelMergeFailed { field: String, reason: String },
    AsyncExecutionFailed(String),
}

/// What an error says, by the characters of its names.
pub enum GraphErrorView {
    DuplicateNode(Seq<char>),
    NodeNotFound(Seq<char>),
    MissingEntryPoint,
    MissingFinishPoint,
    FinishHasOutgoingEdges(Seq<char>),
    InvalidEdge { from: Seq<char>, to: Seq<char> },
    InvalidConditionalSource(Seq<char>),
    DuplicateConditionalSource(Seq<char>),
    InvalidConditionalTarget { from: Seq<char>, to: Seq<char> },
    AmbiguousRoute(Seq<char>),
    DidNotReachFinish(Seq<char>),
    NodeExecutionFailed { node: Seq<char>, reason: Seq<char> },
    Interrupted { node: Seq<char> },
    CommandRejected { node: Seq<char>, reason: Seq<char> },
    InvalidGotoTarget { node: Seq<char>, target: Seq<char> },
    ChannelMergeFailed { field: Seq<char>, reason: Seq<char> },
    AsyncExecutionFailed(Seq<char>),
}

impl View for GraphError {
    type V = GraphErrorView;

    open spec fn view(&self) -> GraphErrorView {
        match self {
            GraphError::DuplicateNode(n) => GraphErrorView::DuplicateNode(n@),
            GraphError::NodeNotFound(n) => GraphErrorView::NodeNotFound(n@),
            GraphError::MissingEntryPoint => GraphErrorView::MissingEntryPoint,
            GraphError::MissingFinishPoint => GraphErrorView::MissingFinishPoint,
            GraphError::FinishHasOutgoingEdges(n) => GraphErrorView::FinishHasOutgoingEdges(n@),
            GraphError::InvalidEdge { from, to } => GraphErrorView::InvalidEdge { from: from@, to: to@ },
            GraphError::InvalidConditionalSource(n) => GraphErrorView::InvalidConditionalSource(n@),
            GraphError::DuplicateConditionalSource(n) => GraphErrorView::DuplicateConditionalSource(n@),
            GraphError::InvalidConditionalTarget { from, to } => GraphErrorView::InvalidConditionalTarget {
                from: from@,
                to: to@,
            },
            GraphError::AmbiguousRoute(n) => GraphErrorView::AmbiguousRoute(n@),
            GraphError::DidNotReachFinish(n) => GraphErrorView::DidNotReachFinish(n@),
            GraphError::NodeExecutionFailed { node, reason } => GraphErrorView::NodeExecutionFailed {
                node: node@,
                reason: reason@,
            },
            GraphError::Interrupted { node } => GraphErrorView::Interrupted { node: node@ },
            GraphError::CommandRejected { node, reason } => GraphErrorView::CommandRejected {
                node: node@,
                reason: reason@,
            },
            GraphError::InvalidGotoTarget { node, target } => GraphErrorView::InvalidGotoTarget {
                node: node@,
                target: target@,
            },
            GraphError::ChannelMergeFailed { field, reason } => GraphErrorView::ChannelMergeFailed {
                field: field@,
                reason: reason@,
            },
            GraphError::AsyncExecutionFailed(m) => GraphErrorView::AsyncExecutionFailed(m@),
        }
    }
}

/// The description of an error.
pub open spec fn graph_error_message(e: GraphErrorView) -> Seq<char> {
    match e {
        GraphErrorView::DuplicateNode(n) => "duplicate node: `"@ + n + "`"@,
        GraphErrorView::NodeNotFound(n) => "node not found: `"@ + n + "`"@,
        GraphErrorView::MissingEntryPoint => "missing entry point"@,
        GraphErrorView::MissingFinishPoint => "missing finish point"@,
        GraphErrorView::FinishHasOutgoingEdges(n) => "finish point `"@ + n + "` must not have outgoing edges"@,
        GraphErrorView::InvalidEdge { from, to } => "invalid edge: `"@ + from + "` -> `"@ + to + "`"@,
        GraphErrorView::InvalidConditionalSource(n) => "invalid conditional edge source: `"@ + n + "`"@,
        GraphErrorView::DuplicateConditionalSource(n) => "duplicate conditional edge source: `"@ + n + "`"@,
        GraphErrorView::InvalidConditionalTarget { from, to } => "invalid conditional edge target from `"@ + from
            + "` to `"@ + to + "`"@,
        GraphErrorView::AmbiguousRoute(n) => "ambiguous sequential route from node `"@ + n + "`"@,
        GraphErrorView::DidNotReachFinish(n) => "graph execution did not reach finish point: `"@ + n + "`"@,
        GraphErrorView::NodeExecutionFailed { node, reason } => "node `"@ + node + "` failed: "@ + reason + ""@,
        GraphErrorView::Interrupted { node } => "execution interrupted by node `"@ + node + "`"@,
        GraphErrorView::CommandRejected { node, reason } => "command rejected at node `"@ + node + "`: "@ + reason
            + ""@,
        GraphErrorView::InvalidGotoTarget { node, target } => "node `"@ + node + "` emitted invalid goto target `"@
            + target + "`"@,
        GraphErrorView::ChannelMergeFailed { field, reason } => "channel `"@ + field + "` merge failed: "@ + reason
            + ""@,
        GraphErrorView::AsyncExecutionFailed(m) => "async execution failed: "@ + m,
    }
}

impl GraphError {
    /// The human-readable description of the error.
    pub fn message(&self) -> (m: String)
        ensures
            m@ == graph_error_message(self@),
    {
        match self {
            GraphError::DuplicateNode(n) => concat3("duplicate node: `", n.as_str(), "`"),
            GraphError::NodeNotFound(n) => concat3("node not found: `", n.as_str(), "`"),
            GraphError::MissingEntryPoint => owned("missing entry point"),
            GraphError::MissingFinishPoint => owned("missing finish point"),
            GraphError::FinishHasOutgoingEdges(n) => concat3(
                "finish point `",
                n.as_str(),
                "` must not have outgoing edges",
            ),
            GraphError::InvalidEdge { from, to } => concat5(
                "invalid edge: `",
                from.as_str(),
                "` -> `",
                to.as_str(),
                "`",
            ),
            GraphError::InvalidConditionalSource(n) => concat3(
                "invalid conditional edge source: `",
                n.as_str(),
                "`",
            ),
            GraphError::DuplicateConditionalSource(n) => concat3(
                "duplicate conditional edge source: `",
                n.as_str(),
                "`",
            ),
            GraphError::InvalidConditionalTarget { from, to } => concat5(
                "invalid conditional edge target from `",
                from.as_str(),
                "` to `",
                to.as_str(),
                "`",
            ),
            GraphError::AmbiguousRoute(n) => concat3(
                "ambiguous sequential route from node `",
                n.as_str(),
                "`",
            ),
            GraphError::DidNotReachFinish(n) => concat3(
                "graph execution did not reach finish point: `",
                n.as_str(),
                "`",
            ),
            GraphError::NodeExecutionFailed { node, reason } => concat5(
                "node `",
                node.as_str(),
                "` failed: ",
                reason.as_str(),
                "",
            ),
            GraphError::Interrupted { node } => concat3(
                "execution interrupted by node `",
                node.as_str(),
                "`",
            ),
            GraphError::CommandRejected { node, reason } => concat5(
                "command rejected at node `",
                node.as_str(),
                "`: ",
                reason.as_str(),
                "",
            ),
            GraphError::InvalidGotoTarget { node, target } => concat5(
                "node `",
                node.as_str(),
                "` emitted invalid goto target `",
                target.as_str(),
                "`",
            ),
            GraphError::ChannelMergeFailed { field, reason } => concat5(
                "channel `",
                field.as_str(),
                "` merge failed: ",
                reason.as_str(),
                "",
            ),
            GraphError::AsyncExecutionFailed(m) => concat("async execution failed: ", m.as_str()),
        }
    }
}

} // verus!
