use langgraph::channel::{BinaryOp, BinaryOperatorAggregate, Channel, LastValue, Topic};
use langgraph::json::Value;

struct Op<F>(F);

impl<F: Fn(&Value, &Value) -> Value> BinaryOp for Op<F> {
    fn apply(&self, left: &Value, right: &Value) -> Value {
        (self.0)(left, right)
    }
}

fn text(s: &str) -> Value {
    Value::String(s.to_string())
}

#[test]
fn last_value_keeps_latest_write() {
    let channel = LastValue;
    let merged = channel.merge(Some(&text("old")), vec![text("a"), text("b")]);
    assert_eq!(merged, text("b"));
}

#[test]
fn binary_operator_aggregate_reduces_all_values() {
    let channel = BinaryOperatorAggregate::new(Box::new(Op(|left: &Value, right: &Value| {
        Value::Number(left.as_i64().unwrap_or_default() + right.as_i64().unwrap_or_default())
    })));
    let merged = channel.merge(Some(&Value::Number(3)), vec![Value::Number(4), Value::Number(5)]);
    assert_eq!(merged, Value::Number(12));
}

#[test]
fn topic_appends_incoming_values() {
    let channel = Topic;
    let merged = channel.merge(Some(&Value::Array(vec![text("a")])), vec![text("b"), text("c")]);
    assert_eq!(merged, Value::Array(vec![text("a"), text("b"), text("c")]));
}

#[test]
fn last_value_refuses_two_writes_in_one_superstep() {
    let channel = LastValue;
    assert!(channel.check_writes(&vec![text("a")]).is_ok());
    assert!(channel.check_writes(&vec![text("a"), text("b")]).is_err());
}

#[test]
fn topic_without_current_value_starts_a_new_list() {
    let channel = Topic;
    let merged = channel.merge(None, vec![text("x")]);
    assert_eq!(merged, Value::Array(vec![text("x")]));
}
