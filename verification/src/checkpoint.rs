//! Checkpoints of a thread's state, the interface of checkpoint savers, and
//! an in-memory saver.
//!
//! A saver keeps, for each thread, its checkpoints by id.  Storing a second
//! checkpoint under an id that the thread already has is a conflict, and
//! listing a thread gives its checkpoints in ascending id order.
use vstd::prelude::*;
use vstd::cell::invcell::InvCell;
use vstd::predicate::Predicate;
use crate::json::{Json, StrMap};
use crate::state::{json_map, StatePatch, State, VersionMap};
use crate::text::{concat, concat3, concat5, seq_lt};

verus! {

/// The name of a thread of runs.
pub type ThreadId = String;

/// The id of a checkpoint within its thread.
pub type CheckpointId = String;

#[derive(Debug, PartialEq)]
pub enum CheckpointError {
    Conflict(String),
    Storage(String),
}

/// The message of a conflict on `checkpoint_id` within `thread_id`.
pub open spec fn conflict_message(thread_id: Seq<char>, checkpoint_id: Seq<char>) -> Seq<char> {
    "thread `"@ + thread_id + "` already has checkpoint `"@ + checkpoint_id + "`"@
}

impl CheckpointError {
    /// The human-readable description of the error.
    pub fn message(&self) -> (m: String)
        ensures
            m@ == match self {
                CheckpointError::Conflict(s) => "checkpoint conflict: `"@ + s@ + "`"@,
                CheckpointError::Storage(s) => "storage error: "@ + s@,
            },
    {
        match self {
            CheckpointError::Conflict(s) => concat3("checkpoint conflict: `", s.as_str(), "`"),
            CheckpointError::Storage(s) => concat("storage error: ", s.as_str()),
        }
    }
}

/// A patch that a node wrote but that was not yet applied.
#[derive(Debug, PartialEq)]
pub struct PendingWrite {
    pub node: String,
    pub patch: StatePatch,
}

impl View for PendingWrite {
    type V = (Seq<char>, Map<Seq<char>, Json>);

    open spec fn view(&self) -> (Seq<char>, Map<Seq<char>, Json>) {
        (self.node@, json_map(self.patch))
    }
}

impl PendingWrite {
    /// A copy of this write.
    pub fn copy(&self) -> (r: PendingWrite)
        ensures
            r@ == self@,
    {
        PendingWrite { node: self.node.clone(), patch: self.patch.copy_values_map() }
    }
}

/// A snapshot of a thread: its state, the channel versions seen, and the
/// writes not yet applied.
#[derive(Debug, PartialEq)]
pub struct Checkpoint {
    pub thread_id: String,
    pub checkpoint_id: String,
    pub state: State,
    pub versions_seen: VersionMap,
    pub pending_writes: Vec<PendingWrite>,
}

/// The content of a checkpoint.
pub struct CheckpointView {
    pub thread_id: Seq<char>,
    pub checkpoint_id: Seq<char>,
    pub state: Map<Seq<char>, Json>,
    pub versions_seen: Map<Seq<char>, u64>,
    pub pending_writes: Seq<(Seq<char>, Map<Seq<char>, Json>)>,
}

/// The contents of a sequence of pending writes.
pub open spec fn writes_view(w: Seq<PendingWrite>) -> Seq<(Seq<char>, Map<Seq<char>, Json>)> {
    w.map_values(|p: PendingWrite| p@)
}

impl View for Checkpoint {
    type V = CheckpointView;

    open spec fn view(&self) -> CheckpointView {
        CheckpointView {
            thread_id: self.thread_id@,
            checkpoint_id: self.checkpoint_id@,
            state: json_map(self.state),
            versions_seen: self.versions_seen@,
            pending_writes: writes_view(self.pending_writes@),
        }
    }
}

/// A copy of a sequence of pending writes.
pub fn copy_pending_writes(writes: &Vec<PendingWrite>) -> (r: Vec<PendingWrite>)
    ensures
        writes_view(r@) == writes_view(writes@),
{
    let mut out: Vec<PendingWrite> = Vec::new();
    let mut i: usize = 0;
    while i < writes.len()
        invariant
            i <= writes.len(),
            out@.len() == i,
            forall|j: int| 0 <= j < i ==> (#[trigger] out@[j])@ == writes@[j]@,
        decreases writes.len() - i,
    {
        out.push(writes[i].copy());
        i = i + 1;
    }
    proof {
        assert(writes_view(out@) =~= writes_view(writes@));
    }
    out
}

impl Checkpoint {
    /// A copy of this checkpoint.
    pub fn copy(&self) -> (r: Checkpoint)
        ensures
            r@ == self@,
    {
        let state = self.state.copy_values_map();
        proof {
            assert(json_map(state) =~= json_map(self.state));
        }
        Checkpoint {
            thread_id: self.thread_id.clone(),
            checkpoint_id: self.checkpoint_id.clone(),
            state,
            versions_seen: self.versions_seen.copy_counts(),
            pending_writes: copy_pending_writes(&self.pending_writes),
        }
    }
}

/// Stores and retrieves the checkpoints of threads.  Implementations
/// decide where checkpoints live; the order in which `list` gives them is
/// theirs to choose.
pub trait CheckpointSaver {
    /// Whether `r` may be the answer to storing checkpoint `c`.  A saver
    /// that does not say more promises nothing.
    open spec fn stores(&self, c: CheckpointView, r: Result<(), CheckpointError>) -> bool {
        true
    }

    /// Whether `r` may be the answer to a lookup of `checkpoint_id` in
    /// `thread_id`.
    open spec fn finds(
        &self,
        thread_id: Seq<char>,
        checkpoint_id: Seq<char>,
        r: Result<Option<Checkpoint>, CheckpointError>,
    ) -> bool {
        true
    }

    /// Whether `r` may be the listing of `thread_id`.
    open spec fn lists(&self, thread_id: Seq<char>, r: Result<Vec<Checkpoint>, CheckpointError>) -> bool {
        true
    }

    fn put(&self, checkpoint: Checkpoint) -> (r: Result<(), CheckpointError>)
        ensures
            self.stores(checkpoint@, r),
    ;

    fn get(&self, thread_id: &str, checkpoint_id: &str) -> (r: Result<Option<Checkpoint>, CheckpointError>)
        ensures
            self.finds(thread_id@, checkpoint_id@, r),
    ;

    fn list(&self, thread_id: &str) -> (r: Result<Vec<Checkpoint>, CheckpointError>)
        ensures
            self.lists(thread_id@, r),
    ;
}

/// The checkpoints of every thread, each thread's by id.
pub struct CheckpointStore {
    threads: StrMap<StrMap<Checkpoint>>,
}

/// The content of one thread's checkpoints, by id.
pub open spec fn thread_view(m: StrMap<Checkpoint>) -> Map<Seq<char>, CheckpointView> {
    m@.map_values(|c: Checkpoint| c@)
}

impl CheckpointStore {
    /// Every checkpoint is stored under its own thread and id.
    #[verifier::type_invariant]
    closed spec fn keyed_by_own_ids(self) -> bool {
        forall|t: Seq<char>, i: Seq<char>|
            #![trigger self.threads@[t]@[i]]
            self.threads@.contains_key(t) && self.threads@[t]@.contains_key(i) ==> self.threads@[t]@[i].thread_id@
                == t && self.threads@[t]@[i].checkpoint_id@ == i
    }

    /// For each thread that has checkpoints, its checkpoints by id.
    pub closed spec fn view(self) -> Map<Seq<char>, Map<Seq<char>, CheckpointView>> {
        self.threads@.map_values(|m: StrMap<Checkpoint>| thread_view(m))
    }

    /// The checkpoints of thread `t`, by id; empty for an unknown thread.
    pub open spec fn checkpoints_of(self, t: Seq<char>) -> Map<Seq<char>, CheckpointView> {
        if self@.contains_key(t) {
            self@[t]
        } else {
            Map::empty()
        }
    }

    /// A store without checkpoints.
    pub fn new() -> (s: Self)
        ensures
            s@ == Map::<Seq<char>, Map<Seq<char>, CheckpointView>>::empty(),
    {
        let s = CheckpointStore { threads: StrMap::new() };
        proof {
            assert(s@ =~= Map::<Seq<char>, Map<Seq<char>, CheckpointView>>::empty());
        }
        s
    }

    /// Stores `checkpoint` under its thread and id, unless that thread
    /// already has a checkpoint with that id.
    pub fn put(&mut self, checkpoint: Checkpoint) -> (r: Result<(), CheckpointError>)
        ensures
            old(self).checkpoints_of(checkpoint.thread_id@).contains_key(checkpoint.checkpoint_id@)
                ==> final(self)@ == old(self)@ && (r matches Err(CheckpointError::Conflict(m))
                && m@ == conflict_message(checkpoint.thread_id@, checkpoint.checkpoint_id@)),
            !old(self).checkpoints_of(checkpoint.thread_id@).contains_key(checkpoint.checkpoint_id@)
                ==> r is Ok && final(self)@ == old(self)@.insert(
                checkpoint.thread_id@,
                old(self).checkpoints_of(checkpoint.thread_id@).insert(checkpoint.checkpoint_id@, checkpoint@),
            ),
    {
        proof {
            use_type_invariant(&*self);
        }
        let ghost t = checkpoint.thread_id@;
        let ghost i = checkpoint.checkpoint_id@;
        let ghost cv = checkpoint@;
        let mut threads = StrMap::new();
        std::mem::swap(&mut threads, &mut self.threads);
        let ghost before = threads;
        let taken = threads.remove(checkpoint.thread_id.as_str());
        let mut entries = match taken {
            Some(m) => m,
            None => StrMap::new(),
        };
        proof {
            assert(thread_view(entries) =~= old(self).checkpoints_of(t));
        }
        if entries.contains_key(checkpoint.checkpoint_id.as_str()) {
            let message = concat5(
                "thread `",
                checkpoint.thread_id.as_str(),
                "` already has checkpoint `",
                checkpoint.checkpoint_id.as_str(),
                "`",
            );
            let key = checkpoint.thread_id;
            threads.insert(key, entries);
            proof {
                assert(threads@ =~= before@);
                assert(threads@.map_values(|m: StrMap<Checkpoint>| thread_view(m)) =~= old(self)@);
            }
            self.threads = threads;
            return Err(CheckpointError::Conflict(message));
        }
        let key = checkpoint.thread_id.clone();
        let id = checkpoint.checkpoint_id.clone();
        entries.insert(id, checkpoint);
        threads.insert(key, entries);
        proof {
            assert(thread_view(entries) =~= old(self).checkpoints_of(t).insert(i, cv));
            assert(threads@.map_values(|m: StrMap<Checkpoint>| thread_view(m)) =~= old(self)@.insert(
                t,
                old(self).checkpoints_of(t).insert(i, cv),
            ));
            assert forall|a: Seq<char>, b: Seq<char>|
                #![trigger threads@[a]@[b]]
                threads@.contains_key(a) && threads@[a]@.contains_key(b) implies threads@[a]@[b].thread_id@ == a
                && threads@[a]@[b].checkpoint_id@ == b by {
                if a != t {
                    assert(before@[a] == threads@[a]);
                } else if b != i {
                    assert(old(self).threads@[a]@.contains_key(b));
                }
            }
        }
        self.threads = threads;
        Ok(())
    }

    /// A copy of the checkpoint `checkpoint_id` of thread `thread_id`.
    pub fn get(&self, thread_id: &str, checkpoint_id: &str) -> (r: Option<Checkpoint>)
        ensures
            r is Some <==> self.checkpoints_of(thread_id@).contains_key(checkpoint_id@),
            r matches Some(c) ==> c@ == self.checkpoints_of(thread_id@)[checkpoint_id@],
            r matches Some(c) ==> c.thread_id@ == thread_id@ && c.checkpoint_id@ == checkpoint_id@,
    {
        proof {
            use_type_invariant(self);
        }
        match self.threads.get(thread_id) {
            None => None,
            Some(entries) => match entries.get(checkpoint_id) {
                None => None,
                Some(c) => Some(c.copy()),
            },
        }
    }

    /// Copies of the checkpoints of thread `thread_id`, in ascending id order.
    pub fn list(&self, thread_id: &str) -> (r: Vec<Checkpoint>)
        ensures
            forall|k: int|
                0 <= k < r@.len() ==> self.checkpoints_of(thread_id@).contains_key((#[trigger] r@[k]).checkpoint_id@)
                    && r@[k]@ == self.checkpoints_of(thread_id@)[r@[k].checkpoint_id@],
            forall|k: int| 0 <= k < r@.len() ==> (#[trigger] r@[k]).thread_id@ == thread_id@,
            forall|a: int, b: int| 0 <= a < b < r@.len() ==> seq_lt(#[trigger] r@[a].checkpoint_id@, #[trigger] r@[b].checkpoint_id@),
            forall|i: Seq<char>|
                #[trigger] self.checkpoints_of(thread_id@).contains_key(i) ==> exists|k: int|
                    0 <= k < r@.len() && (#[trigger] r@[k]).checkpoint_id@ == i,
    {
        proof {
            use_type_invariant(self);
        }
        let mut out: Vec<Checkpoint> = Vec::new();
        match self.threads.get(thread_id) {
            None => {},
            Some(entries) => {
                proof {
                    use_type_invariant(entries);
                    entries.lemma_view();
                    entries.lemma_wf();
                }
                let n = entries.len();
                let mut i: usize = 0;
                while i < n
                    invariant
                        n == entries.pairs().len(),
                        i <= n,
                        out@.len() == i,
                        self.threads@.contains_key(thread_id@),
                        *entries == self.threads@[thread_id@],
                        crate::json::sorted_keys(entries.pairs()),
                        forall|k: int| 0 <= k < entries.pairs().len() ==> #[trigger] entries@.contains_key(entries.pairs()[k].0@),
                        forall|k: int| 0 <= k < entries.pairs().len() ==> entries@[#[trigger] entries.pairs()[k].0@] == entries.pairs()[k].1,
                        forall|k: int| 0 <= k < i ==> (#[trigger] out@[k])@ == entries.pairs()[k].1@,
                    decreases n - i,
                {
                    let c = entries.value_at(i).copy();
                    out.push(c);
                    i = i + 1;
                }
                proof {
                    assert forall|k: int| 0 <= k < out@.len() implies out@[k].checkpoint_id@ == entries.pairs()[k].0@
                        && out@[k].thread_id@ == thread_id@ by {
                        let key = entries.pairs()[k].0@;
                        assert(self.threads@[thread_id@]@[key] == entries.pairs()[k].1);
                    }
                    assert forall|x: Seq<char>|
                        #[trigger] self.checkpoints_of(thread_id@).contains_key(x) implies exists|k: int|
                            0 <= k < out@.len() && (#[trigger] out@[k]).checkpoint_id@ == x by {
                        assert(entries@.contains_key(x));
                        let k = choose|k: int| 0 <= k < entries.pairs().len() && #[trigger] entries.pairs()[k].0@ == x;
                        assert(out@[k].checkpoint_id@ == x);
                    }
                }
            },
        }
        out
    }
}

/// After a checkpoint is stored, reading its thread and id gives it back,
/// every other thread and id reads as before, and storing the same id again
/// is a conflict (the store's `put` leaves the store unchanged then).
pub proof fn law_get_after_put(before: CheckpointStore, after: CheckpointStore, c: CheckpointView)
    requires
        !before.checkpoints_of(c.thread_id).contains_key(c.checkpoint_id),
        after@ == before@.insert(c.thread_id, before.checkpoints_of(c.thread_id).insert(c.checkpoint_id, c)),
    ensures
        after.checkpoints_of(c.thread_id).contains_key(c.checkpoint_id),
        after.checkpoints_of(c.thread_id)[c.checkpoint_id] == c,
        forall|t: Seq<char>, i: Seq<char>|
            !(t == c.thread_id && i == c.checkpoint_id) ==> (#[trigger] after.checkpoints_of(t).contains_key(i)
                <==> before.checkpoints_of(t).contains_key(i)),
        forall|t: Seq<char>, i: Seq<char>|
            !(t == c.thread_id && i == c.checkpoint_id) && before.checkpoints_of(t).contains_key(i)
                ==> #[trigger] after.checkpoints_of(t)[i] == before.checkpoints_of(t)[i],
{
}

/// Admits every store: the store's own invariant is all it needs.
pub struct AnyStore;

impl Predicate<CheckpointStore> for AnyStore {
    open spec fn predicate(&self, v: CheckpointStore) -> bool {
        true
    }
}

/// A saver that keeps checkpoints in memory, shared through `&self`.
///
/// The store sits in a cell, so the saver's contracts see the cell and not
/// what it holds: they do not tie what `get` and `list` return to what an
/// earlier `put` stored, and `new` promises nothing of its contents.
/// Relating two calls through `&self` would take tracked ghost state for
/// the store, which this crate does not use. Each call works on a
/// `CheckpointStore`, whose own contracts are exact (see `put`, `get`,
/// `list` there, and `law_get_after_put`), and what each
/// call hands back is stated above: the error a `put` may give, the thread
/// and id of what `get` finds, the thread and order of what `list` gives.
pub struct InMemorySaver {
    store: InvCell<CheckpointStore, AnyStore>,
}

impl InMemorySaver {
    /// A saver without checkpoints (not stated as a postcondition: see the
    /// type's documentation).
    pub fn new() -> (s: Self) {
        InMemorySaver { store: InvCell::new(CheckpointStore::new(), Ghost(AnyStore)) }
    }
}

impl CheckpointSaver for InMemorySaver {
    /// The only refusal is a conflict on the checkpoint's id.
    open spec fn stores(&self, c: CheckpointView, r: Result<(), CheckpointError>) -> bool {
        r matches Err(e) ==> (e matches CheckpointError::Conflict(m) && m@ == conflict_message(
            c.thread_id,
            c.checkpoint_id,
        ))
    }

    /// Never an error; a checkpoint found is of the thread and id asked for.
    open spec fn finds(
        &self,
        thread_id: Seq<char>,
        checkpoint_id: Seq<char>,
        r: Result<Option<Checkpoint>, CheckpointError>,
    ) -> bool {
        r is Ok && (r matches Ok(Some(c)) ==> c.thread_id@ == thread_id && c.checkpoint_id@ == checkpoint_id)
    }

    /// Never an error; checkpoints of the thread, in ascending id order.
    open spec fn lists(&self, thread_id: Seq<char>, r: Result<Vec<Checkpoint>, CheckpointError>) -> bool {
        r matches Ok(v) && (forall|k: int| 0 <= k < v@.len() ==> (#[trigger] v@[k]).thread_id@ == thread_id) && (
        forall|a: int, b: int|
            0 <= a < b < v@.len() ==> seq_lt(#[trigger] v@[a].checkpoint_id@, #[trigger] v@[b].checkpoint_id@))
    }

    /// Stores `checkpoint`; the only error is a conflict on its id.
    fn put(&self, checkpoint: Checkpoint) -> (r: Result<(), CheckpointError>)
        ensures
            r matches Err(e) ==> (e matches CheckpointError::Conflict(m) && m@ == conflict_message(
                checkpoint.thread_id@,
                checkpoint.checkpoint_id@,
            )),
    {
        let mut store = self.store.replace(CheckpointStore::new());
        let r = store.put(checkpoint);
        let _ = self.store.replace(store);
        r
    }

    /// A copy of the checkpoint stored under the thread and id, if any.
    fn get(&self, thread_id: &str, checkpoint_id: &str) -> (r: Result<Option<Checkpoint>, CheckpointError>)
        ensures
            r is Ok,
            r matches Ok(Some(c)) ==> c.thread_id@ == thread_id@ && c.checkpoint_id@ == checkpoint_id@,
    {
        let store = self.store.replace(CheckpointStore::new());
        let r = store.get(thread_id, checkpoint_id);
        let _ = self.store.replace(store);
        Ok(r)
    }

    /// Copies of the thread's checkpoints, in ascending id order.
    fn list(&self, thread_id: &str) -> (r: Result<Vec<Checkpoint>, CheckpointError>)
        ensures
            r matches Ok(v) && (forall|k: int| 0 <= k < v@.len() ==> (#[trigger] v@[k]).thread_id@ == thread_id@)
                && (forall|a: int, b: int|
                0 <= a < b < v@.len() ==> seq_lt(#[trigger] v@[a].checkpoint_id@, #[trigger] v@[b].checkpoint_id@)),
    {
        let store = self.store.replace(CheckpointStore::new());
        let r = store.list(thread_id);
        let _ = self.store.replace(store);
        Ok(r)
    }
}

} // verus!
