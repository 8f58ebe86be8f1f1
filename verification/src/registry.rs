//! The connection registry: the one piece of shared state of the proxy.
//!
//! It maps each `SessionKey` to the record of its live forwarding session —
//! the backend socket identity and the last-activity stamp — and guarantees
//! at most one session per key. The embedding program serialises every call
//! through one lock; each method here is the body of one such critical
//! section, so the contracts describe exactly what one atomic step does.
//!
//! Removal is idempotent and identity-checked: a session can only deregister
//! the very session stored under its key, never a successor that was created
//! after it under the same key.

use vstd::prelude::*;
use crate::endpoint::SessionKey;
use crate::session::{is_idle, spec_is_idle};

verus! {

/// What the registry stores for one live session: the identity of its
/// dedicated backend socket and the time of its last activity.
#[derive(PartialEq, Eq, Structural, Clone, Copy, Debug)]
pub struct SessionRecord {
    pub socket_id: u64,
    pub last_activity: u64,
}

/// No two entries of the sequence share a key.
pub open spec fn keys_distinct(s: Seq<(SessionKey, SessionRecord)>) -> bool {
    forall|i: int, j: int| 0 <= i < j < s.len() ==> s[i].0 != s[j].0
}

/// Some entry of the sequence carries this key.
pub open spec fn has_key(s: Seq<(SessionKey, SessionRecord)>, key: SessionKey) -> bool {
    exists|i: int| 0 <= i < s.len() && s[i].0 == key
}

/// The mapping the entry sequence stands for.
pub open spec fn map_of(s: Seq<(SessionKey, SessionRecord)>) -> Map<SessionKey, SessionRecord>
    decreases s.len(),
{
    if s.len() == 0 {
        Map::empty()
    } else {
        map_of(s.drop_last()).insert(s.last().0, s.last().1)
    }
}

proof fn lemma_map_of_domain(s: Seq<(SessionKey, SessionRecord)>)
    ensures
        forall|k: SessionKey| #[trigger] map_of(s).contains_key(k) <==> has_key(s, k),
        map_of(s).dom().finite(),
    decreases s.len(),
{
    if s.len() == 0 {
    } else {
        lemma_map_of_domain(s.drop_last());
        assert forall|k: SessionKey| #[trigger] map_of(s).contains_key(k) implies has_key(s, k) by {
            if k == s.last().0 {
                assert(s[s.len() - 1].0 == k);
            } else {
                let i = choose|i: int| 0 <= i < s.drop_last().len() && s.drop_last()[i].0 == k;
                assert(s[i].0 == k);
            }
        }
        assert forall|k: SessionKey| has_key(s, k) implies #[trigger] map_of(s).contains_key(k) by {
            let i = choose|i: int| 0 <= i < s.len() && s[i].0 == k;
            if i < s.len() - 1 {
                assert(s.drop_last()[i].0 == k);
                assert(has_key(s.drop_last(), k));
            }
        }
    }
}

proof fn lemma_map_of_get(s: Seq<(SessionKey, SessionRecord)>, i: int)
    requires
        keys_distinct(s),
        0 <= i < s.len(),
    ensures
        map_of(s).contains_key(s[i].0),
        map_of(s)[s[i].0] == s[i].1,
    decreases s.len(),
{
    if i == s.len() - 1 {
    } else {
        assert(s.drop_last()[i] == s[i]);
        lemma_map_of_get(s.drop_last(), i);
        assert(s[i].0 != s.last().0);
    }
}

proof fn lemma_map_of_len(s: Seq<(SessionKey, SessionRecord)>)
    requires
        keys_distinct(s),
    ensures
        map_of(s).dom().len() == s.len(),
    decreases s.len(),
{
    lemma_map_of_domain(s);
    if s.len() == 0 {
        assert(map_of(s).dom() =~= Set::empty());
    } else {
        lemma_map_of_len(s.drop_last());
        lemma_map_of_domain(s.drop_last());
        assert(!has_key(s.drop_last(), s.last().0)) by {
            if has_key(s.drop_last(), s.last().0) {
                let i = choose|i: int|
                    0 <= i < s.drop_last().len() && s.drop_last()[i].0 == s.last().0;
                assert(s[i].0 == s[s.len() - 1].0);
            }
        }
        assert(map_of(s).dom() =~= map_of(s.drop_last()).dom().insert(s.last().0));
    }
}

proof fn lemma_map_of_push(s: Seq<(SessionKey, SessionRecord)>, key: SessionKey, rec: SessionRecord)
    ensures
        map_of(s.push((key, rec))) == map_of(s).insert(key, rec),
{
    assert(s.push((key, rec)).drop_last() =~= s);
    assert(s.push((key, rec)).last() == (key, rec));
}

proof fn lemma_map_of_update(s: Seq<(SessionKey, SessionRecord)>, i: int, rec: SessionRecord)
    requires
        keys_distinct(s),
        0 <= i < s.len(),
    ensures
        keys_distinct(s.update(i, (s[i].0, rec))),
        map_of(s.update(i, (s[i].0, rec))) == map_of(s).insert(s[i].0, rec),
{
    let k = s[i].0;
    let t = s.update(i, (k, rec));
    assert(forall|j: int| 0 <= j < t.len() ==> #[trigger] t[j].0 == s[j].0);
    lemma_map_of_domain(s);
    lemma_map_of_domain(t);
    assert forall|k2: SessionKey| #[trigger] map_of(t).contains_key(k2) == map_of(s).insert(
        k,
        rec,
    ).contains_key(k2) by {
        if has_key(t, k2) {
            let j = choose|j: int| 0 <= j < t.len() && t[j].0 == k2;
            assert(s[j].0 == k2);
        }
        if has_key(s, k2) {
            let j = choose|j: int| 0 <= j < s.len() && s[j].0 == k2;
            assert(t[j].0 == k2);
        }
    }
    assert forall|k2: SessionKey| map_of(t).contains_key(k2) implies #[trigger] map_of(t)[k2]
        == map_of(s).insert(k, rec)[k2] by {
        let j = choose|j: int| 0 <= j < t.len() && t[j].0 == k2;
        lemma_map_of_get(t, j);
        if k2 == k {
            assert(j == i);
        } else {
            assert(j != i);
            assert(t[j] == s[j]);
            lemma_map_of_get(s, j);
        }
    }
    assert(map_of(t) =~= map_of(s).insert(k, rec));
}

proof fn lemma_map_of_remove(s: Seq<(SessionKey, SessionRecord)>, i: int)
    requires
        keys_distinct(s),
        0 <= i < s.len(),
    ensures
        keys_distinct(s.remove(i)),
        map_of(s.remove(i)) == map_of(s).remove(s[i].0),
{
    let k = s[i].0;
    let t = s.remove(i);
    assert(forall|j: int| 0 <= j < i ==> #[trigger] t[j] == s[j]);
    assert(forall|j: int| i <= j < t.len() ==> #[trigger] t[j] == s[j + 1]);
    assert forall|j1: int, j2: int| 0 <= j1 < j2 < t.len() implies t[j1].0 != t[j2].0 by {
        let i1: int = if j1 < i { j1 } else { j1 + 1 };
        let i2: int = if j2 < i { j2 } else { j2 + 1 };
        assert(t[j1] == s[i1]);
        assert(t[j2] == s[i2]);
    }
    lemma_map_of_domain(s);
    lemma_map_of_domain(t);
    assert forall|k2: SessionKey| #[trigger] map_of(t).contains_key(k2) == map_of(s).remove(
        k,
    ).contains_key(k2) by {
        if has_key(t, k2) {
            let j = choose|j: int| 0 <= j < t.len() && t[j].0 == k2;
            let jo: int = if j < i { j } else { j + 1 };
            assert(s[jo].0 == k2);
            assert(jo != i || k2 == k);
            if k2 == k {
                assert(jo != i ==> false);
            }
        }
        if has_key(s, k2) && k2 != k {
            let j = choose|j: int| 0 <= j < s.len() && s[j].0 == k2;
            assert(j != i);
            let jt: int = if j < i { j } else { j - 1 };
            assert(t[jt].0 == k2);
        }
    }
    assert forall|k2: SessionKey| map_of(t).contains_key(k2) implies #[trigger] map_of(t)[k2]
        == map_of(s).remove(k)[k2] by {
        let j = choose|j: int| 0 <= j < t.len() && t[j].0 == k2;
        lemma_map_of_get(t, j);
        let jo: int = if j < i { j } else { j + 1 };
        assert(t[j] == s[jo]);
        lemma_map_of_get(s, jo);
    }
    assert(map_of(t) =~= map_of(s).remove(k));
}

/// What one atomic `lookup_or_create` does to the mapping: the successor
/// mapping, the socket identity handed back, and whether a session was
/// created. A present key keeps its socket identity and merely has its
/// activity stamped; an absent key gets a fresh record under the offered
/// identity.
pub open spec fn spec_resolve(
    m: Map<SessionKey, SessionRecord>,
    key: SessionKey,
    now: u64,
    fresh_socket_id: u64,
) -> (Map<SessionKey, SessionRecord>, u64, bool) {
    if m.contains_key(key) {
        (
            m.insert(key, SessionRecord { socket_id: m[key].socket_id, last_activity: now }),
            m[key].socket_id,
            false,
        )
    } else {
        (
            m.insert(key, SessionRecord { socket_id: fresh_socket_id, last_activity: now }),
            fresh_socket_id,
            true,
        )
    }
}

/// The mapping after a whole sequence of atomic resolutions of one key, each
/// call given as (arrival time, offered fresh socket identity).
pub open spec fn spec_resolve_all(
    m: Map<SessionKey, SessionRecord>,
    key: SessionKey,
    calls: Seq<(u64, u64)>,
) -> Map<SessionKey, SessionRecord>
    decreases calls.len(),
{
    if calls.len() == 0 {
        m
    } else {
        spec_resolve(
            spec_resolve_all(m, key, calls.drop_last()),
            key,
            calls.last().0,
            calls.last().1,
        ).0
    }
}

/// How many of those resolutions created a session: the counter of backend
/// socket constructions for the key.
pub open spec fn spec_creation_count(
    m: Map<SessionKey, SessionRecord>,
    key: SessionKey,
    calls: Seq<(u64, u64)>,
) -> int
    decreases calls.len(),
{
    if calls.len() == 0 {
        0
    } else {
        spec_creation_count(m, key, calls.drop_last()) + if spec_resolve(
            spec_resolve_all(m, key, calls.drop_last()),
            key,
            calls.last().0,
            calls.last().1,
        ).2 {
            1int
        } else {
            0int
        }
    }
}

/// Once a key is present, further resolutions never create a session and
/// never change the stored socket identity.
pub proof fn lemma_present_key_never_recreated(
    m: Map<SessionKey, SessionRecord>,
    key: SessionKey,
    calls: Seq<(u64, u64)>,
)
    requires
        m.contains_key(key),
    ensures
        spec_resolve_all(m, key, calls).contains_key(key),
        spec_resolve_all(m, key, calls)[key].socket_id == m[key].socket_id,
        spec_creation_count(m, key, calls) == 0,
    decreases calls.len(),
{
    if calls.len() > 0 {
        lemma_present_key_never_recreated(m, key, calls.drop_last());
    }
}

/// Any number of datagrams for one absent key, resolved atomically in some
/// order, create exactly one session: the first call constructs the one
/// backend socket, and every later call is served by that same identity.
pub proof fn lemma_single_session_per_key(
    m: Map<SessionKey, SessionRecord>,
    key: SessionKey,
    calls: Seq<(u64, u64)>,
)
    requires
        !m.contains_key(key),
        calls.len() >= 1,
    ensures
        spec_creation_count(m, key, calls) == 1,
        spec_resolve_all(m, key, calls).contains_key(key),
        spec_resolve_all(m, key, calls)[key].socket_id == calls[0].1,
    decreases calls.len(),
{
    if calls.len() == 1 {
        assert(calls.drop_last().len() == 0);
        assert(calls.last() == calls[0]);
        assert(spec_resolve_all(m, key, calls.drop_last()) == m);
        assert(spec_creation_count(m, key, calls.drop_last()) == 0);
    } else {
        lemma_single_session_per_key(m, key, calls.drop_last());
        assert(calls.drop_last()[0] == calls[0]);
        assert(spec_resolve_all(m, key, calls.drop_last()).contains_key(key));
        assert(!spec_resolve(
            spec_resolve_all(m, key, calls.drop_last()),
            key,
            calls.last().0,
            calls.last().1,
        ).2);
    }
}

/// Sessions are independent: resolving one key neither adds, drops nor
/// alters the record of any other key.
pub proof fn lemma_sessions_independent(
    m: Map<SessionKey, SessionRecord>,
    key: SessionKey,
    other: SessionKey,
    now: u64,
    fresh_socket_id: u64,
)
    requires
        key != other,
    ensures
        spec_resolve(m, key, now, fresh_socket_id).0.contains_key(other) == m.contains_key(other),
        m.contains_key(other) ==> spec_resolve(m, key, now, fresh_socket_id).0[other] == m[other],
{
}

/// The mapping after an idle sweep at time `now`: exactly the entries whose
/// last activity is within `timeout`, unchanged.
pub open spec fn spec_reap(m: Map<SessionKey, SessionRecord>, now: u64, timeout: u64) -> Map<
    SessionKey,
    SessionRecord,
> {
    Map::new(
        |k: SessionKey| m.contains_key(k) && !spec_is_idle(m[k].last_activity, now, timeout),
        |k: SessionKey| m[k],
    )
}

/// After the idle timeout elapses with no traffic on a session, a sweep
/// leaves the registry without its key.
pub proof fn lemma_idle_key_reaped(
    m: Map<SessionKey, SessionRecord>,
    key: SessionKey,
    now: u64,
    timeout: u64,
)
    requires
        m.contains_key(key),
        spec_is_idle(m[key].last_activity, now, timeout),
    ensures
        !spec_reap(m, now, timeout).contains_key(key),
{
}

/// A sweep never touches a session that was active within the timeout: its
/// key stays mapped to the very same record.
pub proof fn lemma_fresh_key_survives_reap(
    m: Map<SessionKey, SessionRecord>,
    key: SessionKey,
    now: u64,
    timeout: u64,
)
    requires
        m.contains_key(key),
        !spec_is_idle(m[key].last_activity, now, timeout),
    ensures
        spec_reap(m, now, timeout).contains_key(key),
        spec_reap(m, now, timeout)[key] == m[key],
{
}

/// Concurrency-safe mapping from session key to live session record; the
/// embedding program guards it with one lock and holds that lock for the
/// duration of exactly one method call, never across backend I/O.
pub struct ConnectionRegistry {
    entries: Vec<(SessionKey, SessionRecord)>,
}

impl View for ConnectionRegistry {
    type V = Map<SessionKey, SessionRecord>;

    closed spec fn view(&self) -> Map<SessionKey, SessionRecord> {
        map_of(self.entries@)
    }
}

impl ConnectionRegistry {
    /// Well-formedness: no key is stored twice.
    pub closed spec fn wf(self) -> bool {
        keys_distinct(self.entries@)
    }

    /// An empty registry.
    pub fn new() -> (r: ConnectionRegistry)
        ensures
            r.wf(),
            r@ == Map::<SessionKey, SessionRecord>::empty(),
    {
        ConnectionRegistry { entries: Vec::new() }
    }

    /// Index of the entry carrying `key`, if any.
    fn find_index(&self, key: SessionKey) -> (r: Option<usize>)
        ensures
            match r {
                Some(i) => i < self.entries@.len() && self.entries@[i as int].0 == key,
                None => !has_key(self.entries@, key),
            },
    {
        let n = self.entries.len();
        let mut i: usize = 0;
        while i < n
            invariant
                n == self.entries@.len(),
                i <= n,
                forall|j: int| 0 <= j < i ==> self.entries@[j].0 != key,
            decreases n - i,
        {
            if self.entries[i].0 == key {
                return Some(i);
            }
            i = i + 1;
        }
        None
    }

    /// Replaces the record at `i`, keeping its key.
    fn set_record(&mut self, i: usize, rec: SessionRecord)
        requires
            i < old(self).entries@.len(),
        ensures
            final(self).entries@ == old(self).entries@.update(
                i as int,
                (old(self).entries@[i as int].0, rec),
            ),
    {
        let key = self.entries[i].0;
        let ghost s = self.entries@;
        self.entries.remove(i);
        self.entries.insert(i, (key, rec));
        proof {
            assert(self.entries@ =~= s.update(i as int, (key, rec)));
        }
    }

    /// Whether a session is registered under `key`.
    pub fn contains(&self, key: SessionKey) -> (r: bool)
        requires
            self.wf(),
        ensures
            r == self@.contains_key(key),
    {
        proof {
            lemma_map_of_domain(self.entries@);
        }
        match self.find_index(key) {
            Some(i) => {
                proof {
                    assert(has_key(self.entries@, key));
                }
                true
            },
            None => false,
        }
    }

    /// The record registered under `key`, if any.
    pub fn lookup(&self, key: SessionKey) -> (r: Option<SessionRecord>)
        requires
            self.wf(),
        ensures
            match r {
                Some(rec) => self@.contains_key(key) && rec == self@[key],
                None => !self@.contains_key(key),
            },
    {
        proof {
            lemma_map_of_domain(self.entries@);
        }
        match self.find_index(key) {
            Some(i) => {
                proof {
                    lemma_map_of_get(self.entries@, i as int);
                }
                Some(self.entries[i].1)
            },
            None => None,
        }
    }

    /// How many sessions are live.
    pub fn len(&self) -> (n: usize)
        requires
            self.wf(),
        ensures
            n == self@.dom().len(),
    {
        proof {
            lemma_map_of_len(self.entries@);
        }
        self.entries.len()
    }

    /// One atomic lookup-or-create step, the heart of the registry: if `key`
    /// is present, its activity is stamped with `now` and the existing
    /// session's socket identity is returned (`created` false, no new
    /// backend socket); if absent, a record under the caller's offered
    /// `fresh_socket_id` is inserted (`created` true — only then does the
    /// caller construct and connect the backend socket).
    pub fn lookup_or_create(&mut self, key: SessionKey, now: u64, fresh_socket_id: u64) -> (r: (
        u64,
        bool,
    ))
        requires
            old(self).wf(),
        ensures
            final(self).wf(),
            r.1 == !old(self)@.contains_key(key),
            !r.1 ==> r.0 == old(self)@[key].socket_id,
            r.1 ==> r.0 == fresh_socket_id,
            final(self)@ == old(self)@.insert(
                key,
                (SessionRecord { socket_id: r.0, last_activity: now }),
            ),
            final(self)@ == spec_resolve(old(self)@, key, now, fresh_socket_id).0,
            r.0 == spec_resolve(old(self)@, key, now, fresh_socket_id).1,
            r.1 == spec_resolve(old(self)@, key, now, fresh_socket_id).2,
    {
        proof {
            lemma_map_of_domain(self.entries@);
        }
        match self.find_index(key) {
            Some(i) => {
                proof {
                    lemma_map_of_get(self.entries@, i as int);
                }
                let socket_id = self.entries[i].1.socket_id;
                proof {
                    lemma_map_of_update(
                        self.entries@,
                        i as int,
                        SessionRecord { socket_id, last_activity: now },
                    );
                }
                self.set_record(i, SessionRecord { socket_id, last_activity: now });
                (socket_id, false)
            },
            None => {
                let ghost s = self.entries@;
                proof {
                    lemma_map_of_push(
                        s,
                        key,
                        SessionRecord { socket_id: fresh_socket_id, last_activity: now },
                    );
                    assert forall|j1: int, j2: int|
                        0 <= j1 < j2 < s.push(
                            (key, SessionRecord { socket_id: fresh_socket_id, last_activity: now }),
                        ).len() implies s.push(
                        (key, SessionRecord { socket_id: fresh_socket_id, last_activity: now }),
                    )[j1].0 != s.push(
                        (key, SessionRecord { socket_id: fresh_socket_id, last_activity: now }),
                    )[j2].0 by {
                        if j2 == s.len() {
                            assert(s[j1].0 != key);
                        }
                    }
                }
                self.entries.push(
                    (key, SessionRecord { socket_id: fresh_socket_id, last_activity: now }),
                );
                (fresh_socket_id, true)
            },
        }
    }

    /// Stamps the activity time of the session under `key`, if one is
    /// registered; used when the relay task sees a backend reply.
    pub fn touch(&mut self, key: SessionKey, now: u64) -> (touched: bool)
        requires
            old(self).wf(),
        ensures
            final(self).wf(),
            touched == old(self)@.contains_key(key),
            touched ==> final(self)@ == old(self)@.insert(
                key,
                (SessionRecord {
                    socket_id: old(self)@[key].socket_id,
                    last_activity: now,
                }),
            ),
            !touched ==> final(self)@ == old(self)@,
    {
        proof {
            lemma_map_of_domain(self.entries@);
        }
        match self.find_index(key) {
            Some(i) => {
                proof {
                    lemma_map_of_get(self.entries@, i as int);
                }
                let socket_id = self.entries[i].1.socket_id;
                proof {
                    lemma_map_of_update(
                        self.entries@,
                        i as int,
                        SessionRecord { socket_id, last_activity: now },
                    );
                }
                self.set_record(i, SessionRecord { socket_id, last_activity: now });
                true
            },
            None => false,
        }
    }

    /// Idempotent, identity-checked removal: the mapping loses `key` only if
    /// the stored session is the very one the caller speaks for — a session
    /// recreated under the same key after this one is never removed by the
    /// stale predecessor.
    pub fn remove(&mut self, key: SessionKey, session_identity: u64) -> (removed: bool)
        requires
            old(self).wf(),
        ensures
            final(self).wf(),
            removed == (old(self)@.contains_key(key) && old(self)@[key].socket_id
                == session_identity),
            removed ==> final(self)@ == old(self)@.remove(key),
            !removed ==> final(self)@ == old(self)@,
    {
        proof {
            lemma_map_of_domain(self.entries@);
        }
        match self.find_index(key) {
            Some(i) => {
                proof {
                    lemma_map_of_get(self.entries@, i as int);
                }
                if self.entries[i].1.socket_id == session_identity {
                    proof {
                        lemma_map_of_remove(self.entries@, i as int);
                    }
                    self.entries.remove(i);
                    true
                } else {
                    false
                }
            },
            None => false,
        }
    }

    /// One idle sweep: drops every session whose last activity lies more
    /// than `timeout` ticks before `now` and hands their entries back, so
    /// the embedding program can release the backend sockets; everything
    /// that was active within the timeout survives unchanged.
    pub fn reap_idle(&mut self, now: u64, timeout: u64) -> (removed: Vec<(
        SessionKey,
        SessionRecord,
    )>)
        requires
            old(self).wf(),
        ensures
            final(self).wf(),
            final(self)@ == spec_reap(old(self)@, now, timeout),
            forall|j: int|
                0 <= j < removed@.len() ==> old(self)@.contains_key(#[trigger] removed@[j].0)
                    && removed@[j].1 == old(self)@[removed@[j].0] && spec_is_idle(
                    removed@[j].1.last_activity,
                    now,
                    timeout,
                ),
            forall|k: SessionKey|
                old(self)@.contains_key(k) && spec_is_idle(
                    old(self)@[k].last_activity,
                    now,
                    timeout,
                ) ==> removed@.contains((k, old(self)@[k])),
            forall|j1: int, j2: int|
                0 <= j1 < j2 < removed@.len() ==> removed@[j1].0 != removed@[j2].0,
    {
        let ghost e = self.entries@;
        let mut kept: Vec<(SessionKey, SessionRecord)> = Vec::new();
        let mut removed: Vec<(SessionKey, SessionRecord)> = Vec::new();
        let n = self.entries.len();
        let mut i: usize = 0;
        while i < n
            invariant
                self.entries@ == e,
                n == e.len(),
                i <= n,
                keys_distinct(e),
                keys_distinct(kept@),
                keys_distinct(removed@),
                forall|j: int|
                    0 <= j < kept@.len() ==> exists|j2: int|
                        0 <= j2 < i && e[j2] == #[trigger] kept@[j] && !spec_is_idle(
                            kept@[j].1.last_activity,
                            now,
                            timeout,
                        ),
                forall|j2: int|
                    0 <= j2 < i && !spec_is_idle(#[trigger] e[j2].1.last_activity, now, timeout)
                        ==> kept@.contains(e[j2]),
                forall|j: int|
                    0 <= j < removed@.len() ==> exists|j2: int|
                        0 <= j2 < i && e[j2] == #[trigger] removed@[j] && spec_is_idle(
                            removed@[j].1.last_activity,
                            now,
                            timeout,
                        ),
                forall|j2: int|
                    0 <= j2 < i && spec_is_idle(#[trigger] e[j2].1.last_activity, now, timeout)
                        ==> removed@.contains(e[j2]),
            decreases n - i,
        {
            let entry = self.entries[i];
            if is_idle(entry.1.last_activity, now, timeout) {
                let ghost prev = removed@;
                proof {
                    assert forall|j: int| 0 <= j < removed@.len() implies #[trigger] removed@[j].0
                        != entry.0 by {
                        let j2 = choose|j2: int|
                            0 <= j2 < i && e[j2] == removed@[j] && spec_is_idle(
                                removed@[j].1.last_activity,
                                now,
                                timeout,
                            );
                        assert(e[j2].0 != e[i as int].0);
                    }
                }
                removed.push(entry);
                proof {
                    assert forall|j2: int|
                        0 <= j2 <= i as int && spec_is_idle(
                            #[trigger] e[j2].1.last_activity,
                            now,
                            timeout,
                        ) implies removed@.contains(e[j2]) by {
                        if j2 == i as int {
                            assert(removed@[prev.len() as int] == e[j2]);
                        } else {
                            let j = choose|j: int| 0 <= j < prev.len() && prev[j] == e[j2];
                            assert(removed@[j] == e[j2]);
                        }
                    }
                }
            } else {
                let ghost prev = kept@;
                proof {
                    assert forall|j: int| 0 <= j < kept@.len() implies #[trigger] kept@[j].0
                        != entry.0 by {
                        let j2 = choose|j2: int|
                            0 <= j2 < i && e[j2] == kept@[j] && !spec_is_idle(
                                kept@[j].1.last_activity,
                                now,
                                timeout,
                            );
                        assert(e[j2].0 != e[i as int].0);
                    }
                }
                kept.push(entry);
                proof {
                    assert forall|j2: int|
                        0 <= j2 <= i as int && !spec_is_idle(
                            #[trigger] e[j2].1.last_activity,
                            now,
                            timeout,
                        ) implies kept@.contains(e[j2]) by {
                        if j2 == i as int {
                            assert(kept@[prev.len() as int] == e[j2]);
                        } else {
                            let j = choose|j: int| 0 <= j < prev.len() && prev[j] == e[j2];
                            assert(kept@[j] == e[j2]);
                        }
                    }
                }
            }
            i = i + 1;
        }
        proof {
            lemma_map_of_domain(e);
        }
        self.entries = kept;
        proof {
            lemma_map_of_domain(self.entries@);
            assert forall|k: SessionKey| #[trigger] map_of(self.entries@).contains_key(k)
                == spec_reap(map_of(e), now, timeout).contains_key(k) by {
                if has_key(self.entries@, k) {
                    let j = choose|j: int|
                        0 <= j < self.entries@.len() && self.entries@[j].0 == k;
                    let j2 = choose|j2: int|
                        0 <= j2 < e.len() && e[j2] == self.entries@[j] && !spec_is_idle(
                            self.entries@[j].1.last_activity,
                            now,
                            timeout,
                        );
                    lemma_map_of_get(e, j2);
                }
                if map_of(e).contains_key(k) && !spec_is_idle(
                    map_of(e)[k].last_activity,
                    now,
                    timeout,
                ) {
                    let j2 = choose|j2: int| 0 <= j2 < e.len() && e[j2].0 == k;
                    lemma_map_of_get(e, j2);
                    assert(kept@.contains(e[j2]));
                    let j = choose|j: int| 0 <= j < kept@.len() && kept@[j] == e[j2];
                    assert(has_key(self.entries@, k));
                }
            }
            assert forall|k: SessionKey| map_of(self.entries@).contains_key(k) implies #[trigger]
                map_of(self.entries@)[k] == spec_reap(map_of(e), now, timeout)[k] by {
                let j = choose|j: int| 0 <= j < self.entries@.len() && self.entries@[j].0 == k;
                lemma_map_of_get(self.entries@, j);
                let j2 = choose|j2: int|
                    0 <= j2 < e.len() && e[j2] == self.entries@[j] && !spec_is_idle(
                        self.entries@[j].1.last_activity,
                        now,
                        timeout,
                    );
                lemma_map_of_get(e, j2);
            }
            assert(map_of(self.entries@) =~= spec_reap(map_of(e), now, timeout));
            assert forall|j: int| 0 <= j < removed@.len() implies map_of(e).contains_key(
                #[trigger] removed@[j].0,
            ) && removed@[j].1 == map_of(e)[removed@[j].0] && spec_is_idle(
                removed@[j].1.last_activity,
                now,
                timeout,
            ) by {
                let j2 = choose|j2: int|
                    0 <= j2 < e.len() && e[j2] == removed@[j] && spec_is_idle(
                        removed@[j].1.last_activity,
                        now,
                        timeout,
                    );
                lemma_map_of_get(e, j2);
            }
            assert forall|k: SessionKey|
                map_of(e).contains_key(k) && spec_is_idle(
                    map_of(e)[k].last_activity,
                    now,
                    timeout,
                ) implies removed@.contains((k, map_of(e)[k])) by {
                let j2 = choose|j2: int| 0 <= j2 < e.len() && e[j2].0 == k;
                lemma_map_of_get(e, j2);
                assert(removed@.contains(e[j2]));
            }
        }
        removed
    }
}

} // verus!
