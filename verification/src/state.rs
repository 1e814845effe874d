//! Graph state, and how the writes of one superstep are applied to it.
use vstd::prelude::*;
use crate::channel::{folds_to, jsons, BinaryOp, Channel, ChannelEntry, Slot};
use crate::error::GraphError;
use crate::json::{Json, StrMap, StrSet, Value};
use crate::text::{lemma_seq_lt_asymmetric, lemma_seq_lt_irreflexive, seq_lt};

verus! {

/// A value held in a state field.
pub type StateValue = Value;

/// The state of a run: field name to value.
pub type State = StrMap<Value>;

/// What one node writes: field name to value.
pub type StatePatch = StrMap<Value>;

/// A version number per channel field.
pub type VersionMap = StrMap<u64>;

/// Folds a field's values: `reduce(current, incoming)`.
pub type ReducerFn = Box<dyn BinaryOp>;

/// The reducer of a field, as a graph stores it.
pub type ReducerEntry = Slot<ReducerFn>;

/// The content of a map of values.
pub open spec fn json_map(m: StrMap<Value>) -> Map<Seq<char>, Json> {
    m@.map_values(|v: Value| v@)
}

/// Whether some patch writes `k`.
pub open spec fn written(writes: Seq<StrMap<Value>>, k: Seq<char>) -> bool {
    exists|w: int| 0 <= w < writes.len() && (#[trigger] writes[w])@.contains_key(k)
}

/// The values written to `k`, in write order.
pub open spec fn incoming_json(writes: Seq<StrMap<Value>>, k: Seq<char>) -> Seq<Json>
    decreases writes.len(),
{
    if writes.len() == 0 {
        Seq::empty()
    } else {
        let rest = incoming_json(writes.drop_last(), k);
        if writes.last()@.contains_key(k) {
            rest.push(writes.last()@[k]@)
        } else {
            rest
        }
    }
}

/// Whether the channel of every channel field written in `writes` accepts
/// the writes it gets.
#[verifier::opaque]
pub open spec fn channels_accept(channels: Map<Seq<char>, ChannelEntry>, writes: Seq<StrMap<Value>>) -> bool {
    forall|k: Seq<char>|
        written(writes, k) && #[trigger] channels.contains_key(k) ==> channels[k].0.refuses(incoming_json(writes, k), None)
}

/// What applying the writes of a superstep does to the fields of a state:
/// unwritten fields keep their entries, every written field has an entry,
/// a channel field takes its channel's merge (the channel having accepted
/// the writes), a reducer field the fold of its reducer, and any other
/// written field its last write.
pub open spec fn writes_applied(
    before: Map<Seq<char>, Value>,
    after: Map<Seq<char>, Value>,
    writes: Seq<StrMap<Value>>,
    reducers: Map<Seq<char>, ReducerEntry>,
    channels: Map<Seq<char>, ChannelEntry>,
) -> bool {
    &&& forall|k: Seq<char>| !written(writes, k) ==> #[trigger] after.contains_key(k) == before.contains_key(k)
    &&& forall|k: Seq<char>| !written(writes, k) && before.contains_key(k) ==> #[trigger] after[k] == before[k]
    &&& forall|k: Seq<char>| written(writes, k) ==> #[trigger] after.contains_key(k)
    &&& forall|k: Seq<char>|
        written(writes, k) && !channels.contains_key(k) && !reducers.contains_key(k)
            ==> #[trigger] after[k]@ == incoming_json(writes, k).last()
    &&& forall|k: Seq<char>|
        written(writes, k) && #[trigger] channels.contains_key(k) ==> channels[k].0.merges(
            field_json(before, k),
            incoming_json(writes, k),
            after[k]@,
        )
    &&& forall|k: Seq<char>|
        written(writes, k) && !channels.contains_key(k) && #[trigger] reducers.contains_key(k) ==> reduced(
            reducers[k],
            field_json(before, k),
            incoming_json(writes, k),
            after[k]@,
        )
    &&& channels_accept(channels, writes)
}

/// The content of field `k`, if the state has it.
pub open spec fn field_json(state: Map<Seq<char>, Value>, k: Seq<char>) -> Option<Json> {
    if state.contains_key(k) {
        Some(state[k]@)
    } else {
        None
    }
}

/// Whether `out` is the reducer's fold of `incoming` into `current`:
/// `reduce(..reduce(current, w1).., wn)`, or the same fold seeded with
/// `w1` when the field has no value.
pub open spec fn reduced(reducer: ReducerEntry, current: Option<Json>, incoming: Seq<Json>, out: Json) -> bool {
    match current {
        Some(c) => folds_to(|l: Json, w: Json, o: Json| reducer.0.applies(l, w, o), c, incoming, out),
        None => folds_to(
            |l: Json, w: Json, o: Json| reducer.0.applies(l, w, o),
            incoming[0],
            incoming.drop_first(),
            out,
        ),
    }
}

/// The next version of a channel field.
pub open spec fn bumped(old: Option<u64>) -> u64 {
    match old {
        Some(v) => if v < u64::MAX { (v + 1) as u64 } else { u64::MAX },
        None => 1,
    }
}

/// The version map after the channel fields written in a superstep have
/// been bumped.
pub open spec fn versions_after(
    versions: Map<Seq<char>, u64>,
    bumped_keys: Set<Seq<char>>,
) -> Map<Seq<char>, u64> {
    Map::new(
        |k: Seq<char>| versions.contains_key(k) || bumped_keys.contains(k),
        |k: Seq<char>|
            if bumped_keys.contains(k) {
                bumped(if versions.contains_key(k) { Some(versions[k]) } else { None })
            } else {
                versions[k]
            },
    )
}

/// The channel fields a superstep writes.
pub open spec fn written_channels(
    writes: Seq<StrMap<Value>>,
    channels: Map<Seq<char>, ChannelEntry>,
) -> Set<Seq<char>> {
    Set::new(|k: Seq<char>| written(writes, k) && channels.contains_key(k))
}

proof fn lemma_incoming_nonempty(writes: Seq<StrMap<Value>>, k: Seq<char>)
    ensures
        written(writes, k) <==> incoming_json(writes, k).len() > 0,
    decreases writes.len(),
{
    if writes.len() > 0 {
        lemma_incoming_nonempty(writes.drop_last(), k);
        if written(writes, k) && !writes.last()@.contains_key(k) {
            let w = choose|w: int| 0 <= w < writes.len() && (#[trigger] writes[w])@.contains_key(k);
            assert(writes.drop_last()[w]@.contains_key(k));
        }
        if written(writes.drop_last(), k) {
            let w = choose|w: int| 0 <= w < writes.drop_last().len() && (#[trigger] writes.drop_last()[w])@.contains_key(k);
            assert(writes[w]@.contains_key(k));
        }
        if writes.last()@.contains_key(k) {
            assert(writes[writes.len() - 1]@.contains_key(k));
        }
    }
}

/// The values of field `key` across the patches, in order.
fn collect_incoming(writes: &Vec<StatePatch>, key: &str) -> (r: Vec<Value>)
    ensures
        r@.map_values(|v: Value| v@) == incoming_json(writes@, key@),
{
    let mut out: Vec<Value> = Vec::new();
    let mut w: usize = 0;
    while w < writes.len()
        invariant
            w <= writes@.len(),
            out@.map_values(|v: Value| v@) == incoming_json(writes@.subrange(0, w as int), key@),
        decreases writes@.len() - w,
    {
        let ghost before = out@;
        match writes[w].get(key) {
            Some(v) => {
                out.push(v.copy());
                proof {
                    assert(out@.map_values(|v: Value| v@) =~= before.map_values(|v: Value| v@).push(
                        writes@[w as int]@[key@]@,
                    ));
                }
            },
            None => {},
        }
        proof {
            let ws = writes@.subrange(0, w + 1);
            assert(ws.drop_last() =~= writes@.subrange(0, w as int));
            assert(ws.last() == writes@[w as int]);
        }
        w = w + 1;
    }
    proof {
        assert(writes@.subrange(0, writes@.len() as int) =~= writes@);
    }
    out
}

/// The fields written by any of the patches.
pub open spec fn written_set(writes: Seq<StrMap<Value>>) -> Set<Seq<char>> {
    Set::new(|k: Seq<char>| written(writes, k))
}

pub proof fn lemma_written_step(writes: Seq<StrMap<Value>>, w: int)
    requires
        0 <= w < writes.len(),
    ensures
        written_set(writes.subrange(0, w + 1)) == written_set(writes.subrange(0, w)) + writes[w]@.dom(),
{
    let ws = writes.subrange(0, w + 1);
    let prevs = writes.subrange(0, w);
    assert(written_set(ws) =~= written_set(prevs) + writes[w]@.dom()) by {
        assert forall|k: Seq<char>| written_set(ws).contains(k) implies (written_set(prevs) + writes[w]@.dom()).contains(k) by {
            let v = choose|v: int| 0 <= v < ws.len() && (#[trigger] ws[v])@.contains_key(k);
            if v < w {
                assert(prevs[v] == ws[v]);
                assert(written(prevs, k));
            }
        }
        assert forall|k: Seq<char>| (written_set(prevs) + writes[w]@.dom()).contains(k) implies written_set(ws).contains(k) by {
            if written(prevs, k) {
                let v = choose|v: int| 0 <= v < prevs.len() && (#[trigger] prevs[v])@.contains_key(k);
                assert(ws[v] == prevs[v]);
            } else {
                assert(ws[w] == writes[w]);
            }
        }
    }
}

/// The set of fields written by any of the patches.
fn written_keys(writes: &Vec<StatePatch>) -> (r: StrSet)
    ensures
        r@ == written_set(writes@),
{
    let mut keys = StrSet::new();
    let mut w: usize = 0;
    proof {
        assert(written_set(writes@.subrange(0, 0)) =~= Set::<Seq<char>>::empty());
    }
    while w < writes.len()
        invariant
            w <= writes@.len(),
            keys@ == written_set(writes@.subrange(0, w as int)),
        decreases writes@.len() - w,
    {
        let patch = &writes[w];
        let n = patch.len();
        let ghost before = keys@;
        proof {
            patch.lemma_keys_dom();
            assert(patch.key_seq().subrange(0, 0).to_set() =~= Set::<Seq<char>>::empty());
        }
        let mut i: usize = 0;
        while i < n
            invariant
                n == patch.pairs().len(),
                n == patch.key_seq().len(),
                patch.wf(),
                forall|j: int| 0 <= j < patch.pairs().len() ==> #[trigger] patch.key_seq()[j] == patch.pairs()[j].0@,
                i <= n,
                keys@ =~= before + patch.key_seq().subrange(0, i as int).to_set(),
            decreases n - i,
        {
            let ghost prefix = patch.key_seq().subrange(0, i as int);
            keys.insert(patch.key_at(i).clone());
            proof {
                assert(patch.key_seq().subrange(0, i + 1) =~= prefix.push(patch.key_seq()[i as int]));
                prefix.lemma_push_to_set_commute(patch.key_seq()[i as int]);
            }
            i = i + 1;
        }
        proof {
            assert(patch.key_seq().subrange(0, n as int) =~= patch.key_seq());
            lemma_written_step(writes@, w as int);
        }
        w = w + 1;
    }
    proof {
        assert(writes@.subrange(0, writes@.len() as int) =~= writes@);
    }
    keys
}

/// Whether `after` is `before` with `patch` applied under `reducers`: a
/// field the patch does not write keeps its value (or its absence); a
/// written field with a reducer and a current value holds what the reducer
/// gives on the current value and the incoming one, in that order; any
/// other written field holds the incoming value.
pub open spec fn patched(
    before: Map<Seq<char>, Value>,
    patch: Map<Seq<char>, Value>,
    reducers: Map<Seq<char>, ReducerEntry>,
    after: Map<Seq<char>, Value>,
) -> bool {
    &&& forall|k: Seq<char>| !patch.contains_key(k) ==> (#[trigger] after.contains_key(k) <==> before.contains_key(k))
    &&& forall|k: Seq<char>| !patch.contains_key(k) && before.contains_key(k) ==> #[trigger] after[k] == before[k]
    &&& forall|k: Seq<char>| #[trigger] patch.contains_key(k) ==> after.contains_key(k) && if before.contains_key(k)
        && reducers.contains_key(k) {
        reducers[k].0.applies(before[k]@, patch[k]@, after[k]@)
    } else {
        after[k]@ == patch[k]@
    }
}

/// A reducer folds the incoming value into the current one: a written field
/// with a reducer and a current value ends as `reduce(current, incoming)`,
/// never `reduce(incoming, current)`.  The same order holds when the writes
/// of a superstep are reduced: one write `w` into a current value `c` gives
/// exactly what the reducer gives on `(c, w)`.
pub proof fn law_reducer_takes_current_then_incoming(
    before: Map<Seq<char>, Value>,
    patch: Map<Seq<char>, Value>,
    reducers: Map<Seq<char>, ReducerEntry>,
    after: Map<Seq<char>, Value>,
    k: Seq<char>,
    c: Json,
    w: Json,
    out: Json,
)
    ensures
        patched(before, patch, reducers, after) && patch.contains_key(k) && before.contains_key(k)
            && reducers.contains_key(k) ==> reducers[k].0.applies(before[k]@, patch[k]@, after[k]@),
        reducers.contains_key(k) ==> (reduced(reducers[k], Some(c), seq![w], out) <==> reducers[k].0.applies(
            c,
            w,
            out,
        )),
{
    if reducers.contains_key(k) {
        let step = |l: Json, x: Json, o: Json| reducers[k].0.applies(l, x, o);
        if reducers[k].0.applies(c, w, out) {
            let accs = seq![c, out];
            assert(accs[0] == c && accs.last() == out);
            assert(forall|j: int| 0 <= j < seq![w].len() ==> #[trigger] step(accs[j], seq![w][j], accs[j + 1]));
            assert(folds_to(step, c, seq![w], out));
        }
        if reduced(reducers[k], Some(c), seq![w], out) {
            let accs = choose|accs: Seq<Json>|
                accs.len() == seq![w].len() + 1 && accs[0] == c && accs.last() == out && forall|j: int|
                    0 <= j < seq![w].len() ==> #[trigger] step(accs[j], seq![w][j], accs[j + 1]);
            assert(step(accs[0], seq![w][0], accs[1]));
        }
    }
}

/// Applies one patch: a field with a reducer and a current value becomes
/// `reduce(current, incoming)`; any other field takes the incoming value.
pub fn apply_patch(state: &mut State, patch: StatePatch, reducers: &StrMap<ReducerEntry>)
    ensures
        forall|k: Seq<char>| !patch@.contains_key(k) ==> #[trigger] final(state)@.contains_key(k) == old(
            state,
        )@.contains_key(k),
        forall|k: Seq<char>| !patch@.contains_key(k) && old(state)@.contains_key(k) ==> #[trigger] final(state)@[k] == old(state)@[k],
        forall|k: Seq<char>| #[trigger] patch@.contains_key(k) ==> final(state)@.contains_key(k),
        forall|k: Seq<char>|
            #[trigger] patch@.contains_key(k) && !(old(state)@.contains_key(k) && reducers@.contains_key(k))
                ==> final(state)@[k]@ == patch@[k]@,
        forall|k: Seq<char>|
            #[trigger] patch@.contains_key(k) && old(state)@.contains_key(k) && reducers@.contains_key(k)
                ==> reducers@[k].0.applies(old(state)@[k]@, patch@[k]@, final(state)@[k]@),
        patched(old(state)@, patch@, reducers@, final(state)@),
{
    let n = patch.len();
    let mut i: usize = 0;
    proof {
        patch.lemma_wf();
        patch.lemma_view();
        patch.lemma_keys_dom();
        assert(patch.key_seq().subrange(0, 0).to_set() =~= Set::<Seq<char>>::empty());
    }
    while i < n
        invariant
            n == patch.pairs().len(),
            n == patch.key_seq().len(),
            i <= n,
            patch.wf(),
            crate::json::sorted_keys(patch.pairs()),
            forall|j: int| 0 <= j < patch.pairs().len() ==> #[trigger] patch.key_seq()[j] == patch.pairs()[j].0@,
            forall|j: int| 0 <= j < patch.pairs().len() ==> patch@[#[trigger] patch.pairs()[j].0@] == patch.pairs()[j].1,
            forall|k: Seq<char>|
                !patch.key_seq().subrange(0, i as int).to_set().contains(k) ==> #[trigger] state@.contains_key(k)
                    == old(state)@.contains_key(k),
            forall|k: Seq<char>|
                !patch.key_seq().subrange(0, i as int).to_set().contains(k) && old(state)@.contains_key(k) ==> #[trigger] state@[k] == old(state)@[k],
            forall|k: Seq<char>| patch.key_seq().subrange(0, i as int).to_set().contains(k) ==> #[trigger] state@.contains_key(k),
            forall|k: Seq<char>|
                patch.key_seq().subrange(0, i as int).to_set().contains(k) && !(old(state)@.contains_key(k) && reducers@.contains_key(k))
                    ==> #[trigger] state@[k]@ == patch@[k]@,
            forall|k: Seq<char>|
                patch.key_seq().subrange(0, i as int).to_set().contains(k) && old(state)@.contains_key(k)
                    && #[trigger] reducers@.contains_key(k) ==> reducers@[k].0.applies(
                    old(state)@[k]@,
                    patch@[k]@,
                    state@[k]@,
                ),
        decreases n - i,
    {
        let key = patch.key_at(i);
        let incoming = patch.value_at(i);
        let ghost kv = key@;
        let ghost prefix = patch.key_seq().subrange(0, i as int);
        proof {
            assert(patch.key_seq()[i as int] == kv);
            assert(!prefix.to_set().contains(kv)) by {
                if prefix.to_set().contains(kv) {
                    let j = choose|j: int| 0 <= j < prefix.len() && prefix[j] == kv;
                    assert(patch.pairs()[j].0@ == kv);
                    crate::json::lemma_sorted_unique(patch.pairs(), j, i as int);
                }
            }
        }
        let merged = match (state.get(key.as_str()), reducers.get(key.as_str())) {
            (Some(existing), Some(reducer)) => reducer.0.apply(existing, incoming),
            _ => incoming.copy(),
        };
        state.insert(key.clone(), merged);
        proof {
            assert(patch.key_seq().subrange(0, i + 1) =~= prefix.push(kv));
            prefix.lemma_push_to_set_commute(kv);
        }
        i = i + 1;
    }
    proof {
        assert(patch.key_seq().subrange(0, n as int) =~= patch.key_seq());
    }
}

/// The versions-seen map after the channel fields written in a superstep
/// have been bumped to their new versions.
pub open spec fn seen_after(
    seen: Map<Seq<char>, u64>,
    versions: Map<Seq<char>, u64>,
    bumped_keys: Set<Seq<char>>,
) -> Map<Seq<char>, u64> {
    Map::new(
        |k: Seq<char>| seen.contains_key(k) || bumped_keys.contains(k),
        |k: Seq<char>| if bumped_keys.contains(k) { versions[k] } else { seen[k] },
    )
}

/// Bumps the version of channel field `key` and records it as seen.
pub fn bump_channel_version(channel_versions: &mut VersionMap, versions_seen: &mut VersionMap, key: &str)
    ensures
        final(channel_versions)@ == old(channel_versions)@.insert(
            key@,
            bumped(if old(channel_versions)@.contains_key(key@) { Some(old(channel_versions)@[key@]) } else { None }),
        ),
        final(versions_seen)@ == old(versions_seen)@.insert(key@, final(channel_versions)@[key@]),
{
    let version: u64 = match channel_versions.get(key) {
        Some(current) => if *current < u64::MAX { *current + 1 } else { u64::MAX },
        None => 1,
    };
    channel_versions.insert(crate::text::owned(key), version);
    versions_seen.insert(crate::text::owned(key), version);
}

/// Applies the writes of one superstep: the writes to each field are grouped
/// in write order; a channel field is checked and merged by its channel (and
/// its version bumped), a field with a reducer folds its writes into its
/// current value, and any other field takes its last write.  Fields are
/// processed in ascending order; the first refusal of a channel stops with
/// `ChannelMergeFailed`.
pub fn apply_writes_with_versions(
    state: &mut State,
    writes: Vec<StatePatch>,
    reducers: &StrMap<ReducerEntry>,
    channels: &StrMap<ChannelEntry>,
    channel_versions: &mut VersionMap,
    versions_seen: &mut VersionMap,
) -> (r: Result<(), GraphError>)
    ensures
        r is Ok ==> {
            &&& writes_applied(old(state)@, final(state)@, writes@, reducers@, channels@)
            &&& forall|k: Seq<char>|
                written(writes@, k) && !channels@.contains_key(k) && !old(state)@.contains_key(k)
                    && incoming_json(writes@, k).len() == 1 ==> #[trigger] final(state)@[k]@
                    == incoming_json(writes@, k)[0]
            &&& final(channel_versions)@ == versions_after(
                old(channel_versions)@,
                written_channels(writes@, channels@),
            )
            &&& final(versions_seen)@ == seen_after(
                old(versions_seen)@,
                final(channel_versions)@,
                written_channels(writes@, channels@),
            )
        },
        r is Ok ==> forall|k: Seq<char>|
            written(writes@, k) && #[trigger] channels@.contains_key(k) ==> channels@[k].0.refuses(
                incoming_json(writes@, k),
                None,
            ),
        r is Ok ==> channels_accept(channels@, writes@),
        r matches Err(e) ==> e matches GraphError::ChannelMergeFailed { field, reason } && written(writes@, field@)
            && channels@.contains_key(field@) && channels@[field@].0.refuses(
                incoming_json(writes@, field@),
                Some(reason@),
            ),
        r matches Err(e) ==> e matches GraphError::ChannelMergeFailed { field, .. } && forall|k: Seq<char>|
            written(writes@, k) && #[trigger] channels@.contains_key(k) && seq_lt(k, field@) ==> channels@[k].0.refuses(
                incoming_json(writes@, k),
                None,
            ),
        (forall|k: Seq<char>| written(writes@, k) ==> !#[trigger] channels@.contains_key(k)) ==> r is Ok,
{
    proof {
        reveal(channels_accept);
    }
    let keys = written_keys(&writes);
    let n = keys.len();
    let ghost old_state = state@;
    let ghost old_cv = channel_versions@;
    let ghost old_vs = versions_seen@;
    let ghost chans = written_channels(writes@, channels@);
    proof {
        keys.lemma_elems();
        assert(keys.elems().subrange(0, 0).to_set() =~= Set::<Seq<char>>::empty());
        assert(versions_after(old_cv, Set::empty()) =~= old_cv);
        assert(seen_after(old_vs, versions_after(old_cv, Set::empty()), Set::empty()) =~= old_vs);
    }
    let mut t: usize = 0;
    while t < n
        invariant
            n == keys.elems().len(),
            t <= n,
            keys.inner().wf(),
            keys@ == written_set(writes@),
            keys.elems().no_duplicates(),
            forall|i: int| 0 <= i < keys.elems().len() ==> #[trigger] keys@.contains(keys.elems()[i]),
            forall|k: Seq<char>| #[trigger] keys@.contains(k) ==> keys.elems().contains(k),
            old_state == old(state)@,
            old_cv == old(channel_versions)@,
            old_vs == old(versions_seen)@,
            chans == written_channels(writes@, channels@),
            forall|k: Seq<char>| !keys.elems().subrange(0, t as int).to_set().contains(k)
                ==> #[trigger] state@.contains_key(k) == old_state.contains_key(k),
            forall|k: Seq<char>| !keys.elems().subrange(0, t as int).to_set().contains(k)
                && old_state.contains_key(k) ==> #[trigger] state@[k] == old_state[k],
            forall|k: Seq<char>| keys.elems().subrange(0, t as int).to_set().contains(k)
                ==> #[trigger] state@.contains_key(k),
            forall|k: Seq<char>| keys.elems().subrange(0, t as int).to_set().contains(k)
                && !channels@.contains_key(k) && !reducers@.contains_key(k)
                ==> #[trigger] state@[k]@ == incoming_json(writes@, k).last(),
            forall|k: Seq<char>| keys.elems().subrange(0, t as int).to_set().contains(k)
                && !channels@.contains_key(k) && !old_state.contains_key(k)
                && incoming_json(writes@, k).len() == 1 ==> #[trigger] state@[k]@
                == incoming_json(writes@, k)[0],
            forall|k: Seq<char>| keys.elems().subrange(0, t as int).to_set().contains(k)
                && #[trigger] channels@.contains_key(k) ==> channels@[k].0.refuses(
                    incoming_json(writes@, k),
                    None,
                ),
            forall|k: Seq<char>| keys.elems().subrange(0, t as int).to_set().contains(k)
                && #[trigger] channels@.contains_key(k) ==> channels@[k].0.merges(
                    field_json(old_state, k),
                    incoming_json(writes@, k),
                    state@[k]@,
                ),
            forall|k: Seq<char>| keys.elems().subrange(0, t as int).to_set().contains(k)
                && !channels@.contains_key(k) && #[trigger] reducers@.contains_key(k) ==> reduced(
                    reducers@[k],
                    field_json(old_state, k),
                    incoming_json(writes@, k),
                    state@[k]@,
                ),
            channel_versions@ == versions_after(
                old_cv,
                chans.intersect(keys.elems().subrange(0, t as int).to_set()),
            ),
            versions_seen@ == seen_after(
                old_vs,
                channel_versions@,
                chans.intersect(keys.elems().subrange(0, t as int).to_set()),
            ),
        decreases n - t,
    {
        let key = keys.at(t);
        let ghost kv = key@;
        let ghost prefix = keys.elems().subrange(0, t as int);
        let ghost done_before = chans.intersect(prefix.to_set());
        proof {
            assert(keys.elems()[t as int] == kv);
            assert(!prefix.to_set().contains(kv)) by {
                if prefix.to_set().contains(kv) {
                    let j = choose|j: int| 0 <= j < prefix.len() && prefix[j] == kv;
                    assert(keys.elems()[j] == keys.elems()[t as int]);
                }
            }
            assert(keys@.contains(kv));
            assert(written(writes@, kv));
            lemma_incoming_nonempty(writes@, kv);
            assert(keys.elems().subrange(0, t + 1) =~= prefix.push(kv));
            prefix.lemma_push_to_set_commute(kv);
        }
        let incoming = collect_incoming(&writes, key.as_str());
        proof {
            assert(incoming@.len() == incoming_json(writes@, kv).len());
            assert(jsons(incoming@) == incoming_json(writes@, kv));
            assert(state@.contains_key(kv) == old_state.contains_key(kv));
            if old_state.contains_key(kv) {
                assert(state@[kv] == old_state[kv]);
            }
        }
        match channels.get(key.as_str()) {
            Some(channel) => {
                match channel.0.check_writes(&incoming) {
                    Ok(()) => {},
                    Err(reason) => {
                        proof {
                            assert(jsons(incoming@) == incoming_json(writes@, kv));
                            keys.lemma_sorted();
                            assert forall|k: Seq<char>|
                                written(writes@, k) && #[trigger] channels@.contains_key(k) && seq_lt(k, kv)
                                implies channels@[k].0.refuses(incoming_json(writes@, k), None) by {
                                assert(keys@.contains(k));
                                assert(keys.elems().contains(k));
                                let j = choose|j: int| 0 <= j < keys.elems().len() && keys.elems()[j] == k;
                                if j == t {
                                    lemma_seq_lt_irreflexive(k);
                                } else if j > t {
                                    lemma_seq_lt_asymmetric(kv, k);
                                }
                                assert(j < t);
                                assert(keys.elems().subrange(0, t as int)[j] == k);
                                assert(keys.elems().subrange(0, t as int).to_set().contains(k));
                            }
                        }
                        return Err(GraphError::ChannelMergeFailed { field: key.clone(), reason });
                    },
                }
                let ghost inc_json = jsons(incoming@);
                let merged = channel.0.merge(state.get(key.as_str()), incoming);
                proof {
                    assert(channels@[kv].0.merges(field_json(old_state, kv), inc_json, merged@));
                }
                let ghost cv_before = channel_versions@;
                let ghost vs_before = versions_seen@;
                bump_channel_version(channel_versions, versions_seen, key.as_str());
                state.insert(key.clone(), merged);
                proof {
                    assert(chans.contains(kv));
                    let done_after = chans.intersect(prefix.push(kv).to_set());
                    assert(done_after =~= done_before.insert(kv));
                    assert(!done_before.contains(kv));
                    assert(channel_versions@ =~= versions_after(old_cv, done_after));
                    assert(versions_seen@ =~= seen_after(old_vs, channel_versions@, done_after));
                }
            },
            None => {
                let ghost inc = incoming@;
                let mut iter = incoming;
                let merged: Value = match reducers.get(key.as_str()) {
                    Some(reducer) => {
                        let ghost all = jsons(inc);
                        let ghost step = |l: Json, w: Json, o: Json| reducer.0.applies(l, w, o);
                        let first = iter.remove(0);
                        proof {
                            assert(jsons(iter@) =~= all.drop_first());
                        }
                        let ghost no_current = !state@.contains_key(kv);
                        let ghost first_v = first;
                        let ghost mut accs: Seq<Json>;
                        let ghost items: Seq<Json>;
                        let mut acc = match state.get(key.as_str()) {
                            Some(current) => {
                                let a = reducer.0.apply(current, &first);
                                proof {
                                    accs = seq![current@, a@];
                                    items = all;
                                }
                                a
                            },
                            None => {
                                proof {
                                    accs = seq![first@];
                                    items = all.drop_first();
                                }
                                first
                            },
                        };
                        let ghost offset: int = if no_current { 0 } else { 1 };
                        let mut i: usize = 0;
                        while i < iter.len()
                            invariant
                                i <= iter@.len(),
                                iter@.len() == inc.len() - 1,
                                no_current && iter@.len() == 0 ==> acc == first_v,
                                first_v == inc[0],
                                all == jsons(inc),
                                all.len() == inc.len(),
                                jsons(iter@) == all.drop_first(),
                                step == (|l: Json, w: Json, o: Json| reducer.0.applies(l, w, o)),
                                offset == (if no_current { 0int } else { 1int }),
                                items == (if no_current { all.drop_first() } else { all }),
                                accs.len() == i + offset + 1,
                                accs[0] == (if no_current { first_v@ } else { old_state[kv]@ }),
                                accs.last() == acc@,
                                forall|k: int| 0 <= k < i + offset ==> #[trigger] step(accs[k], items[k], accs[k + 1]),
                            decreases iter@.len() - i,
                        {
                            let ghost before = accs;
                            let ghost prev = acc@;
                            acc = reducer.0.apply(&acc, &iter[i]);
                            proof {
                                accs = before.push(acc@);
                                assert(jsons(iter@)[i as int] == iter@[i as int]@);
                                assert(all.drop_first()[i as int] == all[i + 1]);
                                assert(items[i + offset] == iter@[i as int]@);
                                assert(before.last() == prev);
                                assert(step(prev, iter@[i as int]@, acc@));
                                assert forall|k: int| 0 <= k < i + 1 + offset implies #[trigger] step(accs[k], items[k], accs[k + 1]) by {
                                    if k < i + offset {
                                        assert(accs[k] == before[k] && accs[k + 1] == before[k + 1]);
                                    }
                                }
                            }
                            i = i + 1;
                        }
                        proof {
                            if inc.len() == 1 && no_current {
                                assert(acc == inc[0]);
                            }
                            assert(folds_to(step, accs[0], items, acc@));
                            assert(all[0] == first_v@);
                            assert(reduced(reducers@[kv], field_json(old_state, kv), all, acc@));
                        }
                        acc
                    },
                    None => iter.pop().unwrap(),
                };
                proof {
                    assert(!chans.contains(kv));
                    let done_after = chans.intersect(prefix.push(kv).to_set());
                    assert(done_after =~= done_before);
                    if !reducers@.contains_key(kv) {
                        assert(merged == inc.last());
                        assert(inc.map_values(|v: Value| v@).last() == inc.last()@);
                    }
                    if !old_state.contains_key(kv) && inc.len() == 1 {
                        assert(!state@.contains_key(kv));
                        assert(merged == inc[0]);
                        assert(inc.map_values(|v: Value| v@)[0] == inc[0]@);
                    }
                }
                state.insert(key.clone(), merged);
            },
        }
        t = t + 1;
    }
    proof {
        assert(keys.elems().subrange(0, n as int) =~= keys.elems());
        assert(keys.elems().to_set() =~= keys@) by {
            assert forall|k: Seq<char>| keys.elems().to_set().contains(k) implies keys@.contains(k) by {
                let j = choose|j: int| 0 <= j < keys.elems().len() && keys.elems()[j] == k;
            }
        }
        assert(chans.intersect(keys@) =~= chans);
        assert forall|k: Seq<char>| !written(writes@, k) implies !keys.elems().to_set().contains(k) by {}
        assert forall|k: Seq<char>| written(writes@, k) implies keys.elems().to_set().contains(k) by {
            assert(keys@.contains(k));
        }
    }
    Ok(())
}

/// Applies the writes of one superstep without tracking versions.
pub fn apply_writes(
    state: &mut State,
    writes: Vec<StatePatch>,
    reducers: &StrMap<ReducerEntry>,
    channels: &StrMap<ChannelEntry>,
) -> (r: Result<(), GraphError>)
    ensures
        r is Ok ==> {
            &&& writes_applied(old(state)@, final(state)@, writes@, reducers@, channels@)
        },
        r is Ok ==> forall|k: Seq<char>|
            written(writes@, k) && #[trigger] channels@.contains_key(k) ==> channels@[k].0.refuses(
                incoming_json(writes@, k),
                None,
            ),
        r is Ok ==> channels_accept(channels@, writes@),
        r matches Err(e) ==> e matches GraphError::ChannelMergeFailed { field, reason } && written(writes@, field@)
            && channels@.contains_key(field@) && channels@[field@].0.refuses(
                incoming_json(writes@, field@),
                Some(reason@),
            ),
        r matches Err(e) ==> e matches GraphError::ChannelMergeFailed { field, .. } && forall|k: Seq<char>|
            written(writes@, k) && #[trigger] channels@.contains_key(k) && seq_lt(k, field@) ==> channels@[k].0.refuses(
                incoming_json(writes@, k),
                None,
            ),
        (forall|k: Seq<char>| written(writes@, k) ==> !#[trigger] channels@.contains_key(k)) ==> r is Ok,
{
    let mut ignored_channel_versions = StrMap::new();
    let mut ignored_versions_seen = StrMap::new();
    apply_writes_with_versions(
        state,
        writes,
        reducers,
        channels,
        &mut ignored_channel_versions,
        &mut ignored_versions_seen,
    )
}

} // verus!
