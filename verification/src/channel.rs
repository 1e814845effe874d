//! Channels decide how the writes that several nodes make to one state field
//! in a superstep are merged with the field's current value.
use vstd::prelude::*;
use crate::json::{copy_values, json_of, Json, Value};

verus! {

/// A binary operation on values, supplied by the user: reducers and the
/// aggregate channel are built from one.
pub trait BinaryOp {
    /// Whether `out` may be the operation's result on `left` and `right`.
    /// An operation that does not say more promises nothing.
    open spec fn applies(&self, left: Json, right: Json, out: Json) -> bool {
        true
    }

    fn apply(&self, left: &Value, right: &Value) -> (r: Value)
        ensures
            self.applies(left@, right@, r@),
    ;
}

/// Whether `r` is reached from `seed` by applying `step` with each of
/// `items` in turn: `step(..step(step(seed, w1), w2).., wn)`.
pub open spec fn folds_to(step: spec_fn(Json, Json, Json) -> bool, seed: Json, items: Seq<Json>, r: Json) -> bool {
    exists|accs: Seq<Json>|
        accs.len() == items.len() + 1 && accs[0] == seed && accs.last() == r && forall|k: int|
            0 <= k < items.len() ==> #[trigger] step(accs[k], items[k], accs[k + 1])
}

/// The reason a check's result holds, if it refused.
pub open spec fn refusal_of(r: Result<(), String>) -> Option<Seq<char>> {
    match r {
        Ok(_) => None,
        Err(s) => Some(s@),
    }
}

/// The contents of values, in order.
pub open spec fn jsons(vs: Seq<Value>) -> Seq<Json> {
    vs.map_values(|v: Value| v@)
}

pub type BinaryOpFn = Box<dyn BinaryOp>;

/// A channel merges the writes of one superstep into a state field.
pub trait Channel {
    /// Whether the channel may answer `refusal` (`None`: accepted) to the
    /// writes `incoming` of one superstep.  A channel that does not say more
    /// promises nothing.
    open spec fn refuses(&self, incoming: Seq<Json>, refusal: Option<Seq<char>>) -> bool {
        true
    }

    /// Checks the writes of one superstep before they are merged; an `Err`
    /// holds the reason they are refused.
    fn check_writes(&self, incoming: &Vec<Value>) -> (r: Result<(), String>)
        ensures
            self.refuses(jsons(incoming@), refusal_of(r)),
    ;

    /// Whether `out` may be the merge of `incoming` (in write order) into
    /// the field's `current` value.  A channel that does not say more
    /// promises nothing.
    open spec fn merges(&self, current: Option<Json>, incoming: Seq<Json>, out: Json) -> bool {
        true
    }

    /// Merges the writes of one superstep, in write order, with the current
    /// value of the field.
    fn merge(&self, current: Option<&Value>, incoming: Vec<Value>) -> (r: Value)
        ensures
            self.merges(
                match current {
                    Some(v) => Some(v@),
                    None => None,
                },
                jsons(incoming@),
                r@,
            ),
    ;
}

pub type ChannelRef = Box<dyn Channel>;

/// What a graph keeps for a field: its channel or its reducer.
pub struct Slot<T>(pub T);

/// The channel of a field, as a graph stores it.
pub type ChannelEntry = Slot<ChannelRef>;

/// The value a field keeps when a superstep brings no write: its current
/// value, or `Null`.
pub open spec fn unchanged_json(current: Option<Value>) -> Json {
    match current {
        Some(v) => v@,
        None => Json::Null,
    }
}

fn copy_or_null(current: Option<&Value>) -> (r: Value)
    ensures
        r@ == unchanged_json(match current { Some(v) => Some(*v), None => None }),
{
    match current {
        Some(v) => v.copy(),
        None => Value::Null,
    }
}

/// Keeps the last write; refuses more than one write per superstep.
#[derive(Debug, Clone, Copy)]
pub struct LastValue;

/// The content a field keeps with no writes: its content, or null.
pub open spec fn kept_json(current: Option<Json>) -> Json {
    match current {
        Some(j) => j,
        None => Json::Null,
    }
}

impl Channel for LastValue {
    /// More than one write is refused.
    open spec fn refuses(&self, incoming: Seq<Json>, refusal: Option<Seq<char>>) -> bool {
        refusal == if incoming.len() > 1 {
            Some("LastValue channel can receive only one value per superstep"@)
        } else {
            None
        }
    }

    /// The last write, or the current content when there is none.
    open spec fn merges(&self, current: Option<Json>, incoming: Seq<Json>, out: Json) -> bool {
        out == if incoming.len() > 0 {
            incoming.last()
        } else {
            kept_json(current)
        }
    }

    fn check_writes(&self, incoming: &Vec<Value>) -> (r: Result<(), String>)
        ensures
            r is Ok <==> incoming@.len() <= 1,
    {
        if incoming.len() > 1 {
            Err(crate::text::owned("LastValue channel can receive only one value per superstep"))
        } else {
            Ok(())
        }
    }

    fn merge(&self, current: Option<&Value>, incoming: Vec<Value>) -> (r: Value)
        ensures
            incoming@.len() > 0 ==> r == incoming@.last(),
            incoming@.len() == 0 ==> r@ == unchanged_json(
                match current { Some(v) => Some(*v), None => None },
            ),
    {
        let ghost all = incoming@;
        let mut incoming = incoming;
        let r = match incoming.pop() {
            Some(last) => last,
            None => copy_or_null(current),
        };
        proof {
            if all.len() > 0 {
                assert(jsons(all).last() == all.last()@);
            }
        }
        r
    }
}

/// Folds the writes into the current value with a binary operation.
pub struct BinaryOperatorAggregate {
    op: Slot<BinaryOpFn>,
}

impl BinaryOperatorAggregate {
    /// What the channel's operation may give on `left` and `right`.
    pub closed spec fn op_applies(self, left: Json, right: Json, out: Json) -> bool {
        self.op.0.applies(left, right, out)
    }

    /// A channel folding with `op`.
    pub fn new(op: BinaryOpFn) -> (r: Self)
        ensures
            forall|left: Json, right: Json, out: Json| #[trigger] r.op_applies(left, right, out) == op.applies(
                left,
                right,
                out,
            ),
    {
        let ghost given = op;
        let held = Slot(op);
        assert(held.0 == given);
        let r = BinaryOperatorAggregate { op: held };
        assert(r.op.0 == given);
        r
    }
}

impl Channel for BinaryOperatorAggregate {
    /// Every set of writes is accepted.
    open spec fn refuses(&self, incoming: Seq<Json>, refusal: Option<Seq<char>>) -> bool {
        refusal is None
    }

    fn check_writes(&self, incoming: &Vec<Value>) -> (r: Result<(), String>)
        ensures
            r is Ok,
    {
        Ok(())
    }

    /// The current content with no writes; else the fold of the writes
    /// with the operation, seeded with the current content, or with the
    /// first write when there is none.
    open spec fn merges(&self, current: Option<Json>, incoming: Seq<Json>, out: Json) -> bool {
        if incoming.len() == 0 {
            out == kept_json(current)
        } else {
            match current {
                Some(c) => folds_to(|l: Json, w: Json, o: Json| self.op_applies(l, w, o), c, incoming, out),
                None => folds_to(
                    |l: Json, w: Json, o: Json| self.op_applies(l, w, o),
                    incoming[0],
                    incoming.drop_first(),
                    out,
                ),
            }
        }
    }

    /// With writes `w1 .. wn`: `op(..op(op(current, w1), w2).., wn)`, or the
    /// same fold seeded with `w1` when there is no current value.
    fn merge(&self, current: Option<&Value>, incoming: Vec<Value>) -> (r: Value)
        ensures
            incoming@.len() == 0 ==> r@ == unchanged_json(
                match current { Some(v) => Some(*v), None => None },
            ),
            incoming@.len() > 0 ==> match current {
                Some(c) => folds_to(|l: Json, w: Json, o: Json| self.op_applies(l, w, o), c@, jsons(incoming@), r@),
                None => folds_to(
                    |l: Json, w: Json, o: Json| self.op_applies(l, w, o),
                    incoming@[0]@,
                    jsons(incoming@).drop_first(),
                    r@,
                ),
            },
            incoming@.len() == 1 && current is None ==> r == incoming@[0],
    {
        if incoming.len() == 0 {
            return copy_or_null(current);
        }
        let ghost n = incoming@.len();
        let ghost first_in = incoming@[0];
        let ghost all = jsons(incoming@);
        let ghost step = |l: Json, w: Json, o: Json| self.op_applies(l, w, o);
        let mut rest = incoming;
        let first = rest.remove(0);
        proof {
            assert(jsons(rest@) =~= all.drop_first());
        }
        let ghost mut accs: Seq<Json>;
        let ghost items: Seq<Json>;
        let mut acc = match current {
            Some(existing) => {
                let a = self.op.0.apply(existing, &first);
                proof {
                    accs = seq![existing@, a@];
                    items = all;
                }
                a
            },
            None => {
                proof {
                    accs = seq![first@];
                    items = all.drop_first();
                }
                first
            },
        };
        let ghost offset: int = if current is Some { 1 } else { 0 };
        let mut i: usize = 0;
        while i < rest.len()
            invariant
                i <= rest.len(),
                rest@.len() == n - 1,
                n == 1 && current is None ==> acc == first_in,
                jsons(rest@) == all.drop_first(),
                step == (|l: Json, w: Json, o: Json| self.op_applies(l, w, o)),
                all.len() == n,
                offset == (if current is Some { 1int } else { 0int }),
                items == (if current is Some { all } else { all.drop_first() }),
                accs.len() == i + offset + 1,
                accs[0] == (match current { Some(c) => c@, None => first_in@ }),
                accs.last() == acc@,
                forall|k: int| 0 <= k < i + offset ==> #[trigger] step(accs[k], items[k], accs[k + 1]),
            decreases rest.len() - i,
        {
            let ghost before = accs;
            let ghost prev = acc@;
            acc = self.op.0.apply(&acc, &rest[i]);
            proof {
                accs = before.push(acc@);
                assert(jsons(rest@)[i as int] == rest@[i as int]@);
                assert(all.drop_first()[i as int] == all[i + 1]);
                assert(items[i + offset] == rest@[i as int]@);
                assert(self.op_applies(prev, rest@[i as int]@, acc@));
                assert(before.last() == prev);
                assert(step(prev, rest@[i as int]@, acc@));
                assert(step(before.last(), items[i + offset], acc@));
                assert forall|k: int| 0 <= k < i + 1 + offset implies #[trigger] step(accs[k], items[k], accs[k + 1]) by {
                    if k < i + offset {
                        assert(accs[k] == before[k] && accs[k + 1] == before[k + 1]);
                    }
                }
            }
            i = i + 1;
        }
        proof {
            assert(items.len() == accs.len() - 1);
            assert(folds_to(step, accs[0], items, acc@));
        }
        acc
    }
}

/// Appends every write to a list; a current non-list value becomes the
/// list's first item.
#[derive(Debug, Clone, Copy)]
pub struct Topic;

/// The list a topic holds after appending `incoming` to `current`.
pub open spec fn topic_json(current: Option<Value>, incoming: Seq<Value>) -> Json {
    let prefix: Seq<Json> = match current {
        Some(Value::Array(items)) => items@.map_values(|v: Value| v@),
        Some(other) => seq![other@],
        None => Seq::empty(),
    };
    Json::Array(prefix + incoming.map_values(|v: Value| v@))
}

impl Channel for Topic {
    /// The current list (a current non-list value as a one-item list, no
    /// value as the empty list) followed by the writes.
    open spec fn merges(&self, current: Option<Json>, incoming: Seq<Json>, out: Json) -> bool {
        out == Json::Array(
            match current {
                Some(Json::Array(items)) => items,
                Some(other) => seq![other],
                None => Seq::empty(),
            } + incoming,
        )
    }

    /// Every set of writes is accepted.
    open spec fn refuses(&self, incoming: Seq<Json>, refusal: Option<Seq<char>>) -> bool {
        refusal is None
    }

    fn check_writes(&self, incoming: &Vec<Value>) -> (r: Result<(), String>)
        ensures
            r is Ok,
    {
        Ok(())
    }

    fn merge(&self, current: Option<&Value>, incoming: Vec<Value>) -> (r: Value)
        ensures
            r@ == topic_json(match current { Some(v) => Some(*v), None => None }, incoming@),
    {
        let mut items: Vec<Value> = match current {
            Some(Value::Array(existing)) => copy_values(existing),
            Some(other) => {
                let mut v = Vec::new();
                v.push(other.copy());
                v
            },
            None => Vec::new(),
        };
        let ghost prefix = items@;
        let ghost cur = match current { Some(v) => Some(*v), None => None };
        let ghost expected_prefix: Seq<Json> = match cur {
            Some(Value::Array(e)) => e@.map_values(|v: Value| v@),
            Some(other) => seq![other@],
            None => Seq::empty(),
        };
        proof {
            assert(prefix.map_values(|v: Value| v@) =~= expected_prefix);
        }
        let mut i: usize = 0;
        while i < incoming.len()
            invariant
                i <= incoming.len(),
                items@.len() == prefix.len() + i,
                items@.map_values(|v: Value| v@) =~= expected_prefix + incoming@.subrange(
                    0,
                    i as int,
                ).map_values(|v: Value| v@),
            decreases incoming.len() - i,
        {
            let ghost before = items@;
            items.push(incoming[i].copy());
            proof {
                assert(incoming@.subrange(0, i + 1) =~= incoming@.subrange(0, i as int).push(
                    incoming@[i as int],
                ));
                assert(items@ =~= before.push(items@.last()));
                assert(items@.map_values(|v: Value| v@) =~= before.map_values(|v: Value| v@).push(
                    incoming@[i as int]@,
                ));
            }
            i = i + 1;
        }
        let r = Value::Array(items);
        proof {
            assert(incoming@.subrange(0, incoming@.len() as int) =~= incoming@);
            let x = r@->Array_0;
            assert(x =~= items@.map_values(|v: Value| v@));
            match cur {
                Some(Value::Array(e)) => {
                    let y = json_of(Value::Array(e))->Array_0;
                    assert(y =~= e@.map_values(|v: Value| v@));
                },
                _ => {},
            }
        }
        r
    }
}

} // verus!
