//! Strategy lifecycle: the instance aggregate, its status machine, and
//! the supervisor state that persists instances and tracks the one live
//! task per `(user, instance)` pair.
//!
//! The supervisor's decisions are pure state transitions here; spawning
//! and cancelling the actual tasks is the embedding application's part,
//! which reports completion back through `on_task_finished`.

use vstd::prelude::*;
use crate::common::TimeFrame;
use crate::signals::EngineError;
use crate::store::StoreError;

verus! {

/// Which engine runs a strategy's source.
#[derive(Clone, Copy, Debug, PartialEq, Eq, Structural)]
pub enum EngineType {
    JavaScript,
    Wasm,
}

/// The engine named by a string.
pub open spec fn spec_engine_from(s: Seq<char>) -> Option<EngineType> {
    if s == "JavaScript"@ {
        Some(EngineType::JavaScript)
    } else if s == "Wasm"@ {
        Some(EngineType::Wasm)
    } else {
        None
    }
}

impl EngineType {
    /// Parse an engine name.
    pub fn from_str(s: &str) -> (r: Result<EngineType, String>)
        ensures
            match r {
                Ok(e) => spec_engine_from(s@) == Some(e),
                Err(_) => spec_engine_from(s@) is None,
            },
    {
        if crate::strutil::str_eq(s, "JavaScript") {
            Ok(EngineType::JavaScript)
        } else if crate::strutil::str_eq(s, "Wasm") {
            Ok(EngineType::Wasm)
        } else {
            Err(s.to_owned())
        }
    }

    /// The engine's canonical name.
    pub fn code(&self) -> (r: &'static str)
        ensures
            r@ == (match *self {
                EngineType::JavaScript => "JavaScript"@,
                EngineType::Wasm => "Wasm"@,
            }),
    {
        match self {
            EngineType::JavaScript => "JavaScript",
            EngineType::Wasm => "Wasm",
        }
    }
}

/// Externally observable run state of a strategy instance.
#[derive(Clone, Debug, PartialEq)]
pub enum StrategyStatus {
    Pending,
    Running,
    Stopped,
    Failed(String),
}

/// One supervised strategy instance.
#[derive(Clone, Debug)]
pub struct StrategyInstance {
    pub id: String,
    pub user_id: String,
    pub symbol: String,
    pub account_id: String,
    pub timeframe: TimeFrame,
    pub engine_type: EngineType,
    pub source: Vec<u8>,
    pub status: StrategyStatus,
    /// Creation time, in milliseconds since the epoch.
    pub created_at: i64,
    /// Last status change, in milliseconds since the epoch.
    pub updated_at: i64,
}

/// Errors of the supervisor.
#[derive(Clone, Debug)]
pub enum ManagerError {
    Store(StoreError),
    Engine(EngineError),
    NotFound(String),
    AlreadyRunning(String),
}

/// A request to start one strategy.
pub struct StartRequest {
    pub symbol: String,
    pub account_id: String,
    pub timeframe: TimeFrame,
    pub engine_type: EngineType,
    pub source: Vec<u8>,
}

/// One persisted record: an instance under its owning user.
pub struct StrategyRecord {
    pub user_id: String,
    pub instance: StrategyInstance,
}

/// One live task handle key.
pub struct TaskKey {
    pub user_id: String,
    pub instance_id: String,
}

/// The stored instance of `(user, id)`, if any.
pub open spec fn find_instance(rs: Seq<StrategyRecord>, user: Seq<char>, id: Seq<char>) -> Option<
    StrategyInstance,
>
    decreases rs.len(),
{
    if rs.len() == 0 {
        None
    } else if rs.last().user_id@ == user && rs.last().instance.id@ == id {
        Some(rs.last().instance)
    } else {
        find_instance(rs.drop_last(), user, id)
    }
}

/// Whether a live task is tracked for `(user, id)`.
pub open spec fn is_running(ks: Seq<TaskKey>, user: Seq<char>, id: Seq<char>) -> bool {
    exists|i: int|
        0 <= i < ks.len() && (#[trigger] ks[i]).user_id@ == user && ks[i].instance_id@ == id
}

/// The supervisor: persisted instances plus the keys of the live tasks.
/// At most one live task per `(user, instance)` pair.
pub struct StrategyManager {
    pub store: Vec<StrategyRecord>,
    pub running: Vec<TaskKey>,
}

/// Supervisor invariant: store keys and task keys are unique, and every
/// record's instance carries its own user.
pub open spec fn supervisor_wf(m: StrategyManager) -> bool {
    &&& forall|i: int, j: int|
        0 <= i < j < m.store@.len() ==> !(m.store@[i].user_id@ == m.store@[j].user_id@
            && m.store@[i].instance.id@ == m.store@[j].instance.id@)
    &&& forall|i: int, j: int|
        0 <= i < j < m.running@.len() ==> !(m.running@[i].user_id@ == m.running@[j].user_id@
            && m.running@[i].instance_id@ == m.running@[j].instance_id@)
    &&& forall|i: int|
        0 <= i < m.store@.len() ==> (#[trigger] m.store@[i]).instance.user_id@
            == m.store@[i].user_id@
}

pub proof fn lemma_find_instance_at(rs: Seq<StrategyRecord>, user: Seq<char>, id: Seq<char>, i: int)
    requires
        forall|p: int, q: int|
            0 <= p < q < rs.len() ==> !(rs[p].user_id@ == rs[q].user_id@ && rs[p].instance.id@
                == rs[q].instance.id@),
        0 <= i < rs.len(),
        rs[i].user_id@ == user,
        rs[i].instance.id@ == id,
    ensures
        find_instance(rs, user, id) == Some(rs[i].instance),
    decreases rs.len(),
{
    if i == rs.len() - 1 {
    } else {
        assert(!(rs.last().user_id@ == user && rs.last().instance.id@ == id));
        assert(rs.drop_last()[i] == rs[i]);
        lemma_find_instance_at(rs.drop_last(), user, id, i);
    }
}

pub proof fn lemma_find_instance_absent(rs: Seq<StrategyRecord>, user: Seq<char>, id: Seq<char>)
    requires
        forall|i: int|
            0 <= i < rs.len() ==> !((#[trigger] rs[i]).user_id@ == user && rs[i].instance.id@
                == id),
    ensures
        find_instance(rs, user, id) is None,
    decreases rs.len(),
{
    if rs.len() > 0 {
        lemma_find_instance_absent(rs.drop_last(), user, id);
    }
}

pub proof fn lemma_find_instance_update(
    rs: Seq<StrategyRecord>,
    i: int,
    rec: StrategyRecord,
    user: Seq<char>,
    id: Seq<char>,
)
    requires
        forall|p: int, q: int|
            0 <= p < q < rs.len() ==> !(rs[p].user_id@ == rs[q].user_id@ && rs[p].instance.id@
                == rs[q].instance.id@),
        0 <= i < rs.len(),
        rec.user_id@ == rs[i].user_id@,
        rec.instance.id@ == rs[i].instance.id@,
    ensures
        find_instance(rs.update(i, rec), rs[i].user_id@, rs[i].instance.id@) == Some(rec.instance),
        !(user == rs[i].user_id@ && id == rs[i].instance.id@) ==> find_instance(
            rs.update(i, rec),
            user,
            id,
        ) == find_instance(rs, user, id),
    decreases rs.len(),
{
    let rs2 = rs.update(i, rec);
    assert(forall|k: int| 0 <= k < rs.len() && k != i ==> rs2[k] == rs[k]);
    lemma_find_instance_at(rs2, rs[i].user_id@, rs[i].instance.id@, i);
    if !(user == rs[i].user_id@ && id == rs[i].instance.id@) {
        if i == rs.len() - 1 {
            assert(rs2.drop_last() =~= rs.drop_last());
        } else {
            if rs.last().user_id@ == user && rs.last().instance.id@ == id {
                assert(rs2.last() == rs.last());
            } else {
                assert(rs2.drop_last() =~= rs.drop_last().update(i, rec));
                lemma_find_instance_update(rs.drop_last(), i, rec, user, id);
            }
        }
    }
}

/// A status from which the supervisor never moves an instance again
/// without a fresh start.
pub open spec fn status_terminal(s: StrategyStatus) -> bool {
    s is Stopped || s is Failed
}

/// What a stop does, observationally: the `(user, id)` task handle is
/// gone; the stored instance, if present and not already terminal,
/// becomes `Stopped` with the given update time — a terminal status is
/// never moved backward, so an already stopped or failed instance is
/// left exactly as it stands; every other record and handle is
/// untouched.
pub open spec fn stop_effect(
    pre: StrategyManager,
    post: StrategyManager,
    user: Seq<char>,
    id: Seq<char>,
    now: i64,
) -> bool {
    &&& !is_running(post.running@, user, id)
    &&& forall|u: Seq<char>, i: Seq<char>|
        !(u == user && i == id) ==> #[trigger] is_running(post.running@, u, i) == is_running(
            pre.running@,
            u,
            i,
        )
    &&& match find_instance(pre.store@, user, id) {
        Some(inst) => find_instance(post.store@, user, id) == Some(
            if status_terminal(inst.status) {
                inst
            } else {
                StrategyInstance { status: StrategyStatus::Stopped, updated_at: now, ..inst }
            },
        ),
        None => find_instance(post.store@, user, id) is None,
    }
    &&& forall|u: Seq<char>, i: Seq<char>|
        !(u == user && i == id) ==> #[trigger] find_instance(post.store@, u, i) == find_instance(
            pre.store@,
            u,
            i,
        )
}

/// Stopping a strategy is idempotent: a first stop leaves the target in
/// a terminal status, so a second stop is an exact no-op on the stores —
/// every record and every task handle stands as the first stop left it,
/// whatever the second clock reading.
pub proof fn lemma_stop_idempotent(
    pre: StrategyManager,
    mid: StrategyManager,
    post: StrategyManager,
    user: Seq<char>,
    id: Seq<char>,
    now1: i64,
    now2: i64,
)
    requires
        stop_effect(pre, mid, user, id, now1),
        stop_effect(mid, post, user, id, now2),
    ensures
        forall|u: Seq<char>, i: Seq<char>|
            #[trigger] is_running(post.running@, u, i) == is_running(mid.running@, u, i),
        forall|u: Seq<char>, i: Seq<char>|
            #[trigger] find_instance(post.store@, u, i) == find_instance(mid.store@, u, i),
{
    assert forall|u: Seq<char>, i: Seq<char>| true implies #[trigger] is_running(
        post.running@,
        u,
        i,
    ) == is_running(mid.running@, u, i) by {
        if u == user && i == id {
        }
    }
    assert forall|u: Seq<char>, i: Seq<char>| true implies #[trigger] find_instance(
        post.store@,
        u,
        i,
    ) == find_instance(mid.store@, u, i) by {
        if u == user && i == id {
            match find_instance(mid.store@, user, id) {
                Some(m) => {
                    assert(status_terminal(m.status));
                },
                None => {},
            }
        }
    }
}

impl StrategyManager {
    /// An empty supervisor.
    pub fn new() -> (r: StrategyManager)
        ensures
            supervisor_wf(r),
            r.store@.len() == 0,
            r.running@.len() == 0,
    {
        StrategyManager { store: Vec::new(), running: Vec::new() }
    }

    /// Index of the record for `(user, id)`, if stored.
    fn find_record_index(&self, user_id: &str, id: &str) -> (r: Option<usize>)
        requires
            supervisor_wf(*self),
        ensures
            match r {
                Some(i) => {
                    &&& i < self.store@.len()
                    &&& self.store@[i as int].user_id@ == user_id@
                    &&& self.store@[i as int].instance.id@ == id@
                    &&& find_instance(self.store@, user_id@, id@) == Some(
                        self.store@[i as int].instance,
                    )
                },
                None => {
                    &&& find_instance(self.store@, user_id@, id@) is None
                    &&& forall|j: int|
                        0 <= j < self.store@.len() ==> !((#[trigger] self.store@[j]).user_id@
                            == user_id@ && self.store@[j].instance.id@ == id@)
                },
            },
    {
        let n = self.store.len();
        let mut i: usize = 0;
        while i < n
            invariant
                n == self.store@.len(),
                i <= n,
                supervisor_wf(*self),
                forall|j: int|
                    0 <= j < i ==> !((#[trigger] self.store@[j]).user_id@ == user_id@
                        && self.store@[j].instance.id@ == id@),
            decreases n - i,
        {
            if crate::strutil::str_eq(self.store[i].user_id.as_str(), user_id)
                && crate::strutil::str_eq(self.store[i].instance.id.as_str(), id) {
                proof {
                    lemma_find_instance_at(self.store@, user_id@, id@, i as int);
                }
                return Some(i);
            }
            i += 1;
        }
        proof {
            lemma_find_instance_absent(self.store@, user_id@, id@);
        }
        None
    }

    /// Index of the live task handle for `(user, id)`, if tracked.
    fn find_running_index(&self, user_id: &str, id: &str) -> (r: Option<usize>)
        ensures
            match r {
                Some(i) => {
                    &&& i < self.running@.len()
                    &&& self.running@[i as int].user_id@ == user_id@
                    &&& self.running@[i as int].instance_id@ == id@
                },
                None => !is_running(self.running@, user_id@, id@),
            },
    {
        let n = self.running.len();
        let mut i: usize = 0;
        while i < n
            invariant
                n == self.running@.len(),
                i <= n,
                forall|j: int|
                    0 <= j < i ==> !((#[trigger] self.running@[j]).user_id@ == user_id@
                        && self.running@[j].instance_id@ == id@),
            decreases n - i,
        {
            if crate::strutil::str_eq(self.running[i].user_id.as_str(), user_id)
                && crate::strutil::str_eq(self.running[i].instance_id.as_str(), id) {
                return Some(i);
            }
            i += 1;
        }
        None
    }

    /// Persist or replace the record of `instance` under `(user, id)`.
    fn save_instance(&mut self, user_id: &str, instance: StrategyInstance)
        requires
            supervisor_wf(*old(self)),
            instance.user_id@ == user_id@,
        ensures
            supervisor_wf(*final(self)),
            final(self).running == old(self).running,
            find_instance(final(self).store@, user_id@, instance.id@) == Some(instance),
            (forall|u: Seq<char>, i: Seq<char>|
                !(u == user_id@ && i == instance.id@) ==> #[trigger] find_instance(
                    final(self).store@,
                    u,
                    i,
                ) == find_instance(old(self).store@, u, i)),
    {
        let ghost rs0 = self.store@;
        let rec = StrategyRecord { user_id: user_id.to_owned(), instance };
        match self.find_record_index(user_id, rec.instance.id.as_str()) {
            Some(i) => {
                proof {
                    lemma_find_instance_update(rs0, i as int, rec, user_id@, rec.instance.id@);
                    assert forall|u: Seq<char>, idv: Seq<char>|
                        !(u == user_id@ && idv == rec.instance.id@) implies find_instance(
                        rs0.update(i as int, rec),
                        u,
                        idv,
                    ) == find_instance(rs0, u, idv) by {
                        lemma_find_instance_update(rs0, i as int, rec, u, idv);
                    }
                }
                self.store.set(i, rec);
            },
            None => {
                proof {
                    assert(rs0.push(rec).last() == rec);
                    assert(rs0.push(rec).drop_last() =~= rs0);
                    assert forall|u: Seq<char>, idv: Seq<char>|
                        !(u == user_id@ && idv == rec.instance.id@) implies find_instance(
                        rs0.push(rec),
                        u,
                        idv,
                    ) == find_instance(rs0, u, idv) by {
                        assert(rs0.push(rec).drop_last() =~= rs0);
                    }
                }
                self.store.push(rec);
            },
        }
    }

    /// Start a strategy: a fresh instance is persisted as `Pending`, the
    /// decision to run it is recorded by moving it to `Running`, and its
    /// task handle is tracked. The caller spawns the actual task and
    /// reports its completion through `on_task_finished`.
    pub fn start_strategy(&mut self, user_id: &str, req: StartRequest, now_ms: i64) -> (r: Result<
        String,
        ManagerError,
    >)
        requires
            supervisor_wf(*old(self)),
        ensures
            supervisor_wf(*final(self)),
            match r {
                Ok(instance_id) => {
                    &&& find_instance(final(self).store@, user_id@, instance_id@) matches Some(
                        inst,
                    )
                    &&& (find_instance(final(self).store@, user_id@, instance_id@) matches Some(
                        inst,
                    ) ==> {
                        &&& inst.id@ == instance_id@
                        &&& inst.user_id@ == user_id@
                        &&& inst.symbol == req.symbol
                        &&& inst.account_id == req.account_id
                        &&& inst.timeframe == req.timeframe
                        &&& inst.engine_type == req.engine_type
                        &&& inst.source@ == req.source@
                        &&& inst.status is Running
                        &&& inst.created_at == now_ms
                        &&& inst.updated_at == now_ms
                    })
                    &&& is_running(final(self).running@, user_id@, instance_id@)
                    &&& (forall|u: Seq<char>, i: Seq<char>|
                        !(u == user_id@ && i == instance_id@) ==> #[trigger] find_instance(
                            final(self).store@,
                            u,
                            i,
                        ) == find_instance(old(self).store@, u, i))
                },
                Err(_) => false,
            },
    {
        let instance_id = crate::common::fresh_uuid();
        let instance = StrategyInstance {
            id: instance_id.clone(),
            user_id: user_id.to_owned(),
            symbol: req.symbol,
            account_id: req.account_id,
            timeframe: req.timeframe,
            engine_type: req.engine_type,
            source: req.source,
            status: StrategyStatus::Pending,
            created_at: now_ms,
            updated_at: now_ms,
        };
        let mut running_instance = instance.duplicate_record();
        self.save_instance(user_id, instance);
        running_instance.status = StrategyStatus::Running;
        self.save_instance(user_id, running_instance);
        self.track_running(user_id, instance_id.as_str());
        Ok(instance_id)
    }

    /// Record the live task handle for `(user, id)`.
    fn track_running(&mut self, user_id: &str, id: &str)
        requires
            supervisor_wf(*old(self)),
        ensures
            supervisor_wf(*final(self)),
            final(self).store == old(self).store,
            is_running(final(self).running@, user_id@, id@),
            (forall|u: Seq<char>, i: Seq<char>|
                !(u == user_id@ && i == id@) ==> #[trigger] is_running(final(self).running@, u, i)
                    == is_running(old(self).running@, u, i)),
    {
        match self.find_running_index(user_id, id) {
            Some(_) => {
                proof {
                    assert(is_running(self.running@, user_id@, id@));
                }
            },
            None => {
                let ghost ks0 = self.running@;
                let key = TaskKey { user_id: user_id.to_owned(), instance_id: id.to_owned() };
                self.running.push(key);
                proof {
                    assert(self.running@[ks0.len() as int] == key);
                    assert(is_running(self.running@, user_id@, id@));
                    assert forall|u: Seq<char>, i: Seq<char>|
                        !(u == user_id@ && i == id@) implies #[trigger] is_running(
                        self.running@,
                        u,
                        i,
                    ) == is_running(ks0, u, i) by {
                        if is_running(self.running@, u, i) {
                            let k = choose|k: int|
                                0 <= k < self.running@.len() && (#[trigger] self.running@[k]).user_id@
                                    == u && self.running@[k].instance_id@ == i;
                            assert(k < ks0.len());
                            assert(ks0[k] == self.running@[k]);
                        }
                        if is_running(ks0, u, i) {
                            let k = choose|k: int|
                                0 <= k < ks0.len() && (#[trigger] ks0[k]).user_id@ == u
                                    && ks0[k].instance_id@ == i;
                            assert(self.running@[k] == ks0[k]);
                        }
                    }
                }
            },
        }
    }

    /// Drop the task handle of `(user, id)`, if tracked.
    fn untrack_running(&mut self, user_id: &str, id: &str)
        requires
            supervisor_wf(*old(self)),
        ensures
            supervisor_wf(*final(self)),
            final(self).store == old(self).store,
            !is_running(final(self).running@, user_id@, id@),
            (forall|u: Seq<char>, i: Seq<char>|
                !(u == user_id@ && i == id@) ==> #[trigger] is_running(final(self).running@, u, i)
                    == is_running(old(self).running@, u, i)),
    {
        match self.find_running_index(user_id, id) {
            Some(k) => {
                let ghost ks0 = self.running@;
                let _ = self.running.remove(k);
                proof {
                    assert(forall|j: int| 0 <= j < k ==> self.running@[j] == ks0[j]);
                    assert(forall|j: int|
                        k <= j < self.running@.len() ==> self.running@[j] == ks0[j + 1]);
                    assert(!is_running(self.running@, user_id@, id@)) by {
                        if is_running(self.running@, user_id@, id@) {
                            let j = choose|j: int|
                                0 <= j < self.running@.len() && (#[trigger] self.running@[j]).user_id@
                                    == user_id@ && self.running@[j].instance_id@ == id@;
                            if j < k {
                                assert(ks0[j].user_id@ == user_id@ && ks0[j].instance_id@ == id@);
                                assert(!(ks0[j].user_id@ == ks0[k as int].user_id@
                                    && ks0[j].instance_id@ == ks0[k as int].instance_id@));
                            } else {
                                assert(ks0[j + 1].user_id@ == user_id@ && ks0[j + 1].instance_id@
                                    == id@);
                                assert(!(ks0[k as int].user_id@ == ks0[j + 1].user_id@
                                    && ks0[k as int].instance_id@ == ks0[j + 1].instance_id@));
                            }
                        }
                    }
                    assert forall|u: Seq<char>, i: Seq<char>|
                        !(u == user_id@ && i == id@) implies #[trigger] is_running(
                        self.running@,
                        u,
                        i,
                    ) == is_running(ks0, u, i) by {
                        if is_running(self.running@, u, i) {
                            let j = choose|j: int|
                                0 <= j < self.running@.len() && (#[trigger] self.running@[j]).user_id@
                                    == u && self.running@[j].instance_id@ == i;
                            if j < k {
                                assert(ks0[j] == self.running@[j]);
                            } else {
                                assert(ks0[j + 1] == self.running@[j]);
                            }
                        }
                        if is_running(ks0, u, i) {
                            let j = choose|j: int|
                                0 <= j < ks0.len() && (#[trigger] ks0[j]).user_id@ == u
                                    && ks0[j].instance_id@ == i;
                            assert(j != k);
                            if j < k {
                                assert(self.running@[j] == ks0[j]);
                            } else {
                                assert(self.running@[j - 1] == ks0[j]);
                            }
                        }
                    }
                }
            },
            None => {},
        }
    }

    /// Stop a strategy: its task handle (if any) is dropped and its
    /// stored status becomes `Stopped`. Stopping an absent or already
    /// stopped instance is a no-op that still succeeds.
    pub fn stop_strategy(&mut self, user_id: &str, id: &str, now_ms: i64) -> (r: Result<
        (),
        ManagerError,
    >)
        requires
            supervisor_wf(*old(self)),
        ensures
            supervisor_wf(*final(self)),
            r is Ok,
            stop_effect(*old(self), *final(self), user_id@, id@, now_ms),
    {
        self.untrack_running(user_id, id);
        let ghost rs_mid = self.store@;
        match self.find_record_index(user_id, id) {
            Some(i) => {
                let already_terminal = match &self.store[i].instance.status {
                    StrategyStatus::Stopped => true,
                    StrategyStatus::Failed(_) => true,
                    _ => false,
                };
                if !already_terminal {
                    let mut rec = self.store.remove(i);
                    rec.instance.status = StrategyStatus::Stopped;
                    rec.instance.updated_at = now_ms;
                    proof {
                        assert(rs_mid.remove(i as int).insert(i as int, rec) =~= rs_mid.update(
                            i as int,
                            rec,
                        ));
                        lemma_find_instance_update(rs_mid, i as int, rec, user_id@, id@);
                        assert forall|u: Seq<char>, idv: Seq<char>|
                            !(u == user_id@ && idv == id@) implies find_instance(
                            rs_mid.update(i as int, rec),
                            u,
                            idv,
                        ) == find_instance(rs_mid, u, idv) by {
                            lemma_find_instance_update(rs_mid, i as int, rec, u, idv);
                        }
                    }
                    self.store.insert(i, rec);
                }
            },
            None => {},
        }
        Ok(())
    }

    /// Record a finished task: the handle is dropped and the status
    /// becomes `Stopped` on success or `Failed` with the task's message.
    /// A status already terminal — the user stopped the strategy before
    /// the task's report arrived — is never moved backward.
    pub fn on_task_finished(
        &mut self,
        user_id: &str,
        id: &str,
        outcome: Result<(), String>,
        now_ms: i64,
    )
        requires
            supervisor_wf(*old(self)),
        ensures
            supervisor_wf(*final(self)),
            !is_running(final(self).running@, user_id@, id@),
            match find_instance(old(self).store@, user_id@, id@) {
                Some(inst) => find_instance(final(self).store@, user_id@, id@) == Some(
                    if status_terminal(inst.status) {
                        inst
                    } else {
                        StrategyInstance {
                            status: match outcome {
                                Ok(()) => StrategyStatus::Stopped,
                                Err(msg) => StrategyStatus::Failed(msg),
                            },
                            updated_at: now_ms,
                            ..inst
                        }
                    },
                ),
                None => find_instance(final(self).store@, user_id@, id@) is None,
            },
            (forall|u: Seq<char>, i: Seq<char>|
                !(u == user_id@ && i == id@) ==> #[trigger] find_instance(
                    final(self).store@,
                    u,
                    i,
                ) == find_instance(old(self).store@, u, i)),
    {
        self.untrack_running(user_id, id);
        let ghost rs_mid = self.store@;
        match self.find_record_index(user_id, id) {
            Some(i) => {
                let already_terminal = match &self.store[i].instance.status {
                    StrategyStatus::Stopped => true,
                    StrategyStatus::Failed(_) => true,
                    _ => false,
                };
                if !already_terminal {
                    let mut rec = self.store.remove(i);
                    rec.instance.status = match outcome {
                        Ok(()) => StrategyStatus::Stopped,
                        Err(msg) => StrategyStatus::Failed(msg),
                    };
                    rec.instance.updated_at = now_ms;
                    proof {
                        assert(rs_mid.remove(i as int).insert(i as int, rec) =~= rs_mid.update(
                            i as int,
                            rec,
                        ));
                        lemma_find_instance_update(rs_mid, i as int, rec, user_id@, id@);
                        assert forall|u: Seq<char>, idv: Seq<char>|
                            !(u == user_id@ && idv == id@) implies find_instance(
                            rs_mid.update(i as int, rec),
                            u,
                            idv,
                        ) == find_instance(rs_mid, u, idv) by {
                            lemma_find_instance_update(rs_mid, i as int, rec, u, idv);
                        }
                    }
                    self.store.insert(i, rec);
                }
            },
            None => {},
        }
    }

    /// All instances of one user, in storage order; each returned record
    /// is a copy of a stored one.
    pub fn list_strategies(&self, user_id: &str) -> (r: Result<Vec<StrategyInstance>, ManagerError>)
        ensures
            (r matches Ok(out) && {
                let mine = self.store@.map_values(|rec: StrategyRecord| rec.instance).filter(
                    |inst: StrategyInstance| inst.user_id@ == user_id@,
                );
                &&& out@.len() == mine.len()
                &&& forall|k: int|
                    0 <= k < out@.len() ==> same_instance(#[trigger] out@[k], mine[k])
            }),
    {
        let mut out: Vec<StrategyInstance> = Vec::new();
        let n = self.store.len();
        let mut i: usize = 0;
        let ghost all = self.store@.map_values(|rec: StrategyRecord| rec.instance);
        let ghost pred = |inst: StrategyInstance| inst.user_id@ == user_id@;
        proof {
            assert(all.subrange(0, 0).filter(pred) =~= Seq::<StrategyInstance>::empty());
        }
        while i < n
            invariant
                n == self.store@.len(),
                i <= n,
                all == self.store@.map_values(|rec: StrategyRecord| rec.instance),
                pred == (|inst: StrategyInstance| inst.user_id@ == user_id@),
                out@.len() == all.subrange(0, i as int).filter(pred).len(),
                forall|k: int|
                    0 <= k < out@.len() ==> same_instance(
                        #[trigger] out@[k],
                        all.subrange(0, i as int).filter(pred)[k],
                    ),
            decreases n - i,
        {
            let ghost pre_filtered = all.subrange(0, i as int).filter(pred);
            let inst = &self.store[i].instance;
            if crate::strutil::str_eq(inst.user_id.as_str(), user_id) {
                out.push(inst.duplicate_record());
            }
            proof {
                let cur = all.subrange(0, i as int + 1);
                assert(cur.drop_last() =~= all.subrange(0, i as int));
                assert(cur.last() == all[i as int]);
                assert(all[i as int] == self.store@[i as int].instance);
                reveal_with_fuel(Seq::filter, 2);
                if pred(all[i as int]) {
                    assert(cur.filter(pred) == pre_filtered.push(all[i as int]));
                }
            }
            i += 1;
        }
        proof {
            assert(all.subrange(0, n as int) =~= all);
        }
        Ok(out)
    }

    /// One instance of one user by id; the returned record is a copy of
    /// the stored one.
    pub fn get_strategy(&self, user_id: &str, id: &str) -> (r: Result<
        StrategyInstance,
        ManagerError,
    >)
        requires
            supervisor_wf(*self),
        ensures
            match r {
                Ok(inst) => {
                    &&& find_instance(self.store@, user_id@, id@) matches Some(stored)
                    &&& (find_instance(self.store@, user_id@, id@) matches Some(stored)
                        ==> same_instance(inst, stored))
                },
                Err(e) => {
                    &&& e matches ManagerError::NotFound(_)
                    &&& find_instance(self.store@, user_id@, id@) is None
                },
            },
    {
        match self.find_record_index(user_id, id) {
            Some(i) => Ok(self.store[i].instance.duplicate_record()),
            None => Err(ManagerError::NotFound(id.to_owned())),
        }
    }
}

/// Two instances agree on every field; the source bytes are compared by
/// content.
pub open spec fn same_instance(a: StrategyInstance, b: StrategyInstance) -> bool {
    &&& a.id == b.id
    &&& a.user_id == b.user_id
    &&& a.symbol == b.symbol
    &&& a.account_id == b.account_id
    &&& a.timeframe == b.timeframe
    &&& a.engine_type == b.engine_type
    &&& a.source@ == b.source@
    &&& a.status == b.status
    &&& a.created_at == b.created_at
    &&& a.updated_at == b.updated_at
}

impl StrategyInstance {
    /// A copy of the instance, equal in every field and in the source
    /// bytes.
    pub fn duplicate_record(&self) -> (r: StrategyInstance)
        ensures
            same_instance(r, *self),
    {
        let source = self.source.clone();
        proof {
            assert(source@ =~= self.source@);
        }
        StrategyInstance {
            id: self.id.clone(),
            user_id: self.user_id.clone(),
            symbol: self.symbol.clone(),
            account_id: self.account_id.clone(),
            timeframe: self.timeframe,
            engine_type: self.engine_type,
            source,
            status: match &self.status {
                StrategyStatus::Pending => StrategyStatus::Pending,
                StrategyStatus::Running => StrategyStatus::Running,
                StrategyStatus::Stopped => StrategyStatus::Stopped,
                StrategyStatus::Failed(msg) => StrategyStatus::Failed(msg.clone()),
            },
            created_at: self.created_at,
            updated_at: self.updated_at,
        }
    }
}

} // verus!
