//! A cache of conversation state by session key, in which a session lives
//! for a fixed time after it was last used.
//!
//! The clock is the caller's: every operation is told the time, as a count
//! of ticks (milliseconds, say) on a clock of the caller's choosing, and the
//! time to live is a count of the same ticks. A time that lies before a
//! session's last use expires nothing. The cache is a plain value; sharing
//! it between requests is the caller's to arrange.

use vstd::prelude::*;
use vstd::string::StringExecFns;

verus! {

/// One conversation: its key, its state, and when it was made and last
/// used.
pub struct ChainSession<V> {
    pub key: String,
    pub state: V,
    pub created_at: u64,
    pub last_access: u64,
}

/// What the cache knows of one key.
pub ghost struct SessionView<V> {
    pub state: V,
    pub created_at: u64,
    pub last_access: u64,
}

impl<V> ChainSession<V> {
    /// The session without its key.
    pub open spec fn summary(self) -> SessionView<V> {
        SessionView {
            state: self.state,
            created_at: self.created_at,
            last_access: self.last_access,
        }
    }
}

/// Whether a session last used at `last_access` is still alive at `now`:
/// it is, until more than `ttl` has passed since.
pub open spec fn is_live(last_access: u64, now: u64, ttl: u64) -> bool {
    now - last_access <= ttl
}

/// The later of two times.
pub open spec fn later(a: u64, b: u64) -> u64 {
    if a >= b {
        a
    } else {
        b
    }
}

/// What a lookup of `key` at `now` finds: the state of a live session, and
/// nothing for a key that is unknown or whose session has expired.
pub open spec fn found<V>(
    sessions: Map<Seq<char>, SessionView<V>>,
    key: Seq<char>,
    now: u64,
    ttl: u64,
) -> Option<V> {
    if sessions.contains_key(key) && is_live(sessions[key].last_access, now, ttl) {
        Some(sessions[key].state)
    } else {
        None
    }
}

/// The sessions after a lookup of `key` at `now`: a live session has its
/// last use moved up to `now`, an expired one is gone, and all others are
/// as they were.
pub open spec fn after_get<V>(
    sessions: Map<Seq<char>, SessionView<V>>,
    key: Seq<char>,
    now: u64,
    ttl: u64,
) -> Map<Seq<char>, SessionView<V>> {
    if !sessions.contains_key(key) {
        sessions
    } else if is_live(sessions[key].last_access, now, ttl) {
        sessions.insert(
            key,
            SessionView { last_access: later(sessions[key].last_access, now), ..sessions[key] },
        )
    } else {
        sessions.remove(key)
    }
}

/// The sessions after `state` is stored under `key` at `now`: the key holds
/// the new state, last used at `now`. A live session keeps the time it was
/// made; for an unknown or expired key the session is made at `now`.
pub open spec fn after_put<V>(
    sessions: Map<Seq<char>, SessionView<V>>,
    key: Seq<char>,
    state: V,
    now: u64,
    ttl: u64,
) -> Map<Seq<char>, SessionView<V>> {
    sessions.insert(
        key,
        SessionView {
            state,
            created_at: if sessions.contains_key(key) && is_live(
                sessions[key].last_access,
                now,
                ttl,
            ) {
                sessions[key].created_at
            } else {
                now
            },
            last_access: now,
        },
    )
}

/// The sessions that are still alive at `now`.
pub open spec fn live_at<V>(sessions: Map<Seq<char>, SessionView<V>>, now: u64, ttl: u64) -> Map<
    Seq<char>,
    SessionView<V>,
> {
    sessions.restrict(
        Set::new(
            |key: Seq<char>|
                sessions.contains_key(key) && is_live(sessions[key].last_access, now, ttl),
        ),
    )
}

/// Whether no two of the sessions share a key.
spec fn distinct_keys<V>(sessions: Seq<ChainSession<V>>) -> bool {
    forall|i: int, j: int|
        0 <= i < j < sessions.len() ==> sessions[i].key@ != sessions[j].key@
}

/// Whether `key` is the key of the session at `i`.
spec fn keyed<V>(sessions: Seq<ChainSession<V>>, key: Seq<char>, i: int) -> bool {
    0 <= i < sessions.len() && sessions[i].key@ == key
}

/// The sessions as a map from their keys.
spec fn by_key<V>(sessions: Seq<ChainSession<V>>) -> Map<Seq<char>, SessionView<V>> {
    Map::new(
        |key: Seq<char>| exists|i: int| keyed(sessions, key, i),
        |key: Seq<char>| sessions[choose|i: int| keyed(sessions, key, i)].summary(),
    )
}

proof fn lemma_by_key<V>(sessions: Seq<ChainSession<V>>, i: int)
    requires
        distinct_keys(sessions),
        0 <= i < sessions.len(),
    ensures
        by_key(sessions).contains_key(sessions[i].key@),
        by_key(sessions)[sessions[i].key@] == sessions[i].summary(),
{
    let key = sessions[i].key@;
    assert(keyed(sessions, key, i));
    let chosen = choose|c: int| keyed(sessions, key, c);
    assert(keyed(sessions, key, chosen));
    if chosen < i {
        assert(sessions[chosen].key@ != sessions[i].key@);
    } else if i < chosen {
        assert(sessions[i].key@ != sessions[chosen].key@);
    }
}

proof fn lemma_by_key_absent<V>(sessions: Seq<ChainSession<V>>, key: Seq<char>)
    requires
        forall|i: int| 0 <= i < sessions.len() ==> sessions[i].key@ != key,
    ensures
        !by_key(sessions).contains_key(key),
{
    if by_key(sessions).contains_key(key) {
        let i = choose|i: int| keyed(sessions, key, i);
        assert(keyed(sessions, key, i));
    }
}

proof fn lemma_by_key_update<V>(
    before: Seq<ChainSession<V>>,
    after: Seq<ChainSession<V>>,
    i: int,
)
    requires
        distinct_keys(before),
        0 <= i < before.len() == after.len(),
        after[i].key@ == before[i].key@,
        forall|j: int| 0 <= j < before.len() && j != i ==> after[j] == before[j],
    ensures
        distinct_keys(after),
        by_key(after) == by_key(before).insert(before[i].key@, after[i].summary()),
{
    assert forall|a: int, b: int| 0 <= a < b < after.len() implies after[a].key@
        != after[b].key@ by {
        assert(before[a].key@ != before[b].key@);
    }
    let want = by_key(before).insert(before[i].key@, after[i].summary());
    assert forall|key: Seq<char>| by_key(after).contains_key(key) <==> want.contains_key(
        key,
    ) by {
        if by_key(after).contains_key(key) {
            let c = choose|c: int| keyed(after, key, c);
            assert(keyed(before, key, c));
        }
        if by_key(before).contains_key(key) {
            let c = choose|c: int| keyed(before, key, c);
            assert(keyed(after, key, c));
        }
        assert(keyed(after, before[i].key@, i));
    }
    assert forall|key: Seq<char>| by_key(after).contains_key(key) implies by_key(after)[key]
        == want[key] by {
        let c = choose|c: int| keyed(after, key, c);
        lemma_by_key(after, c);
        if c != i {
            lemma_by_key(before, c);
        }
    }
    assert(by_key(after) =~= want);
}

proof fn lemma_by_key_remove<V>(before: Seq<ChainSession<V>>, i: int)
    requires
        distinct_keys(before),
        0 <= i < before.len(),
    ensures
        distinct_keys(before.remove(i)),
        by_key(before.remove(i)) == by_key(before).remove(before[i].key@),
{
    let after = before.remove(i);
    let origin = |j: int|
        if j < i {
            j
        } else {
            j + 1
        };
    assert forall|j: int| 0 <= j < after.len() implies after[j] == before[origin(j)] by {}
    assert forall|a: int, b: int| 0 <= a < b < after.len() implies after[a].key@
        != after[b].key@ by {
        assert(after[a] == before[origin(a)]);
        assert(after[b] == before[origin(b)]);
    }
    let want = by_key(before).remove(before[i].key@);
    assert forall|key: Seq<char>| by_key(after).contains_key(key) <==> want.contains_key(
        key,
    ) by {
        if by_key(after).contains_key(key) {
            let c = choose|c: int| keyed(after, key, c);
            assert(after[c] == before[origin(c)]);
            assert(keyed(before, key, origin(c)));
            if origin(c) < i {
                assert(before[origin(c)].key@ != before[i].key@);
            } else {
                assert(before[i].key@ != before[origin(c)].key@);
            }
        }
        if want.contains_key(key) {
            let c = choose|c: int| keyed(before, key, c);
            assert(c != i);
            let d = if c < i {
                c
            } else {
                c - 1
            };
            assert(after[d] == before[origin(d)]);
            assert(keyed(after, key, d));
        }
    }
    assert forall|key: Seq<char>| by_key(after).contains_key(key) implies by_key(after)[key]
        == want[key] by {
        let c = choose|c: int| keyed(after, key, c);
        lemma_by_key(after, c);
        assert(after[c] == before[origin(c)]);
        lemma_by_key(before, origin(c));
    }
    assert(by_key(after) =~= want);
}

proof fn lemma_by_key_push<V>(before: Seq<ChainSession<V>>, session: ChainSession<V>)
    requires
        distinct_keys(before),
        !by_key(before).contains_key(session.key@),
    ensures
        distinct_keys(before.push(session)),
        by_key(before.push(session)) == by_key(before).insert(session.key@, session.summary()),
{
    let after = before.push(session);
    assert forall|a: int, b: int| 0 <= a < b < after.len() implies after[a].key@
        != after[b].key@ by {
        if b == before.len() {
            assert(keyed(before, before[a].key@, a));
        } else {
            assert(before[a].key@ != before[b].key@);
        }
    }
    let want = by_key(before).insert(session.key@, session.summary());
    assert forall|key: Seq<char>| by_key(after).contains_key(key) <==> want.contains_key(
        key,
    ) by {
        if by_key(after).contains_key(key) {
            let c = choose|c: int| keyed(after, key, c);
            if c < before.len() {
                assert(keyed(before, key, c));
            }
        }
        if by_key(before).contains_key(key) {
            let c = choose|c: int| keyed(before, key, c);
            assert(keyed(after, key, c));
        }
        assert(keyed(after, session.key@, before.len() as int));
    }
    assert forall|key: Seq<char>| by_key(after).contains_key(key) implies by_key(after)[key]
        == want[key] by {
        let c = choose|c: int| keyed(after, key, c);
        lemma_by_key(after, c);
        if c < before.len() {
            lemma_by_key(before, c);
            assert(keyed(before, key, c));
        }
    }
    assert(by_key(after) =~= want);
}

proof fn lemma_by_key_len<V>(sessions: Seq<ChainSession<V>>)
    requires
        distinct_keys(sessions),
    ensures
        by_key(sessions).dom().finite(),
        by_key(sessions).len() == sessions.len(),
    decreases sessions.len(),
{
    if sessions.len() == 0 {
        assert(by_key(sessions).dom() =~= Set::<Seq<char>>::empty()) by {
            assert forall|key: Seq<char>| !by_key(sessions).contains_key(key) by {
                lemma_by_key_absent(sessions, key);
            }
        }
    } else {
        let init = sessions.drop_last();
        let last = sessions.last();
        assert(distinct_keys(init));
        lemma_by_key_len(init);
        assert(!by_key(init).contains_key(last.key@)) by {
            assert forall|i: int| 0 <= i < init.len() implies init[i].key@ != last.key@ by {
                assert(sessions[i].key@ != sessions[sessions.len() - 1].key@);
            }
            lemma_by_key_absent(init, last.key@);
        }
        lemma_by_key_push(init, last);
        assert(init.push(last) =~= sessions);
        assert(by_key(sessions).dom() =~= by_key(init).dom().insert(last.key@));
    }
}

proof fn lemma_by_key_kept<V>(
    before: Seq<ChainSession<V>>,
    after: Seq<ChainSession<V>>,
    now: u64,
    ttl: u64,
)
    requires
        distinct_keys(before),
        distinct_keys(after),
        forall|j: int| 0 <= j < after.len() ==> before.contains(#[trigger] after[j]),
        forall|j: int| 0 <= j < after.len() ==> is_live(#[trigger] after[j].last_access, now, ttl),
        forall|o: int|
            0 <= o < before.len() && is_live(before[o].last_access, now, ttl) ==> after.contains(
                #[trigger] before[o],
            ),
    ensures
        by_key(after) == live_at(by_key(before), now, ttl),
{
    let want = live_at(by_key(before), now, ttl);
    assert forall|key: Seq<char>| by_key(after).contains_key(key) <==> want.contains_key(
        key,
    ) by {
        if by_key(after).contains_key(key) {
            let c = choose|c: int| keyed(after, key, c);
            assert(before.contains(after[c]));
            let o = choose|o: int| 0 <= o < before.len() && before[o] == after[c];
            lemma_by_key(before, o);
            assert(is_live(after[c].last_access, now, ttl));
        }
        if want.contains_key(key) {
            let o = choose|o: int| keyed(before, key, o);
            lemma_by_key(before, o);
            assert(after.contains(before[o]));
            let c = choose|c: int| 0 <= c < after.len() && after[c] == before[o];
            assert(keyed(after, key, c));
        }
    }
    assert forall|key: Seq<char>| by_key(after).contains_key(key) implies by_key(after)[key]
        == want[key] by {
        let c = choose|c: int| keyed(after, key, c);
        lemma_by_key(after, c);
        assert(before.contains(after[c]));
        let o = choose|o: int| 0 <= o < before.len() && before[o] == after[c];
        lemma_by_key(before, o);
    }
    assert(by_key(after) =~= want);
}

/// A cache of sessions by key. A session that has not been used for longer
/// than the cache's time to live is as good as absent; it is dropped when it
/// is next looked up, or by a sweep.
pub struct SessionCache<V> {
    ttl: u64,
    sessions: Vec<ChainSession<V>>,
}

impl<V> View for SessionCache<V> {
    type V = Map<Seq<char>, SessionView<V>>;

    closed spec fn view(&self) -> Map<Seq<char>, SessionView<V>> {
        by_key(self.sessions@)
    }
}

impl<V> SessionCache<V> {
    #[verifier::type_invariant]
    spec fn well_formed(self) -> bool {
        distinct_keys(self.sessions@)
    }

    /// How long a session lives after its last use.
    pub closed spec fn lifetime(&self) -> u64 {
        self.ttl
    }

    /// An empty cache whose sessions live for `ttl` after their last use.
    pub fn new(ttl: u64) -> (cache: Self)
        ensures
            cache@ == Map::<Seq<char>, SessionView<V>>::empty(),
            cache.lifetime() == ttl,
    {
        let cache = SessionCache { ttl, sessions: Vec::new() };
        proof {
            lemma_by_key_absent(cache.sessions@, Seq::empty());
            assert(cache@ =~= Map::<Seq<char>, SessionView<V>>::empty()) by {
                assert forall|key: Seq<char>| !cache@.contains_key(key) by {
                    lemma_by_key_absent(cache.sessions@, key);
                }
            }
        }
        cache
    }

    /// The cache's time to live.
    pub fn ttl(&self) -> (ttl: u64)
        ensures
            ttl == self.lifetime(),
    {
        self.ttl
    }

    /// Takes the sessions out of the cache, which is left empty.
    fn take_sessions(&mut self) -> (sessions: Vec<ChainSession<V>>)
        ensures
            sessions@ == old(self).sessions@,
            final(self).sessions@.len() == 0,
            final(self).ttl == old(self).ttl,
    {
        let mut sessions: Vec<ChainSession<V>> = Vec::new();
        std::mem::swap(&mut self.sessions, &mut sessions);
        sessions
    }

    /// Puts `sessions` into the cache in place of what it holds.
    fn put_sessions(&mut self, sessions: Vec<ChainSession<V>>)
        requires
            distinct_keys(sessions@),
        ensures
            final(self).sessions@ == sessions@,
            final(self).ttl == old(self).ttl,
    {
        let mut sessions = sessions;
        std::mem::swap(&mut self.sessions, &mut sessions);
    }

    /// Where the session of `key` stands, if there is one.
    fn position(&self, key: &String) -> (r: Option<usize>)
        ensures
            match r {
                Some(i) => keyed(self.sessions@, key@, i as int),
                None => !self@.contains_key(key@),
            },
    {
        let mut i: usize = 0;
        while i < self.sessions.len()
            invariant
                i <= self.sessions@.len(),
                forall|j: int| 0 <= j < i ==> self.sessions@[j].key@ != key@,
            decreases self.sessions@.len() - i,
        {
            if self.sessions[i].key == *key {
                return Some(i);
            }
            i += 1;
        }
        proof {
            lemma_by_key_absent(self.sessions@, key@);
        }
        None
    }

    /// Looks up the session of `key` at the time `now`. A live session is
    /// found and counts as used at `now`; an expired one is dropped and,
    /// like an unknown key, gives nothing.
    pub fn get(&mut self, key: &str, now: u64) -> (r: Option<&V>)
        ensures
            final(self).lifetime() == old(self).lifetime(),
            final(self)@ == after_get(old(self)@, key@, now, old(self).lifetime()),
            r.is_some() == found(old(self)@, key@, now, old(self).lifetime()).is_some(),
            r.is_some() ==> *r.unwrap() == found(
                old(self)@,
                key@,
                now,
                old(self).lifetime(),
            ).unwrap(),
    {
        let wanted = String::from_str(key);
        proof {
            use_type_invariant(&*self);
        }
        match self.position(&wanted) {
            None => None,
            Some(i) => {
                let ghost before = self.sessions@;
                proof {
                    lemma_by_key(before, i as int);
                }
                let last = self.sessions[i].last_access;
                if now <= last || now - last <= self.ttl {
                    if now > last {
                        let mut sessions = self.take_sessions();
                        sessions[i].last_access = now;
                        proof {
                            lemma_by_key_update(before, sessions@, i as int);
                        }
                        self.put_sessions(sessions);
                    }
                    assert(self@ =~= after_get(old(self)@, key@, now, self.ttl));
                    Some(&self.sessions[i].state)
                } else {
                    proof {
                        lemma_by_key_remove(before, i as int);
                    }
                    let mut sessions = self.take_sessions();
                    sessions.remove(i);
                    self.put_sessions(sessions);
                    None
                }
            },
        }
    }

    /// Reads the session of `key` as it stands at `now`, without counting
    /// as a use: a live session is shown, an unknown or expired key gives
    /// nothing.
    pub fn peek(&self, key: &str, now: u64) -> (r: Option<&ChainSession<V>>)
        ensures
            r.is_some() == found(self@, key@, now, self.lifetime()).is_some(),
            r.is_some() ==> r.unwrap().key@ == key@ && r.unwrap().summary() == self@[key@],
    {
        let wanted = String::from_str(key);
        proof {
            use_type_invariant(self);
        }
        match self.position(&wanted) {
            None => None,
            Some(i) => {
                proof {
                    lemma_by_key(self.sessions@, i as int);
                }
                let last = self.sessions[i].last_access;
                if now <= last || now - last <= self.ttl {
                    Some(&self.sessions[i])
                } else {
                    None
                }
            },
        }
    }

    /// Stores `state` under `key` at the time `now`, in place of what the
    /// key held. The session counts as used at `now`; it keeps the time it
    /// was made only if it was still alive.
    pub fn put(&mut self, key: String, state: V, now: u64)
        ensures
            final(self).lifetime() == old(self).lifetime(),
            final(self)@ == after_put(old(self)@, key@, state, now, old(self).lifetime()),
    {
        proof {
            use_type_invariant(&*self);
        }
        let ttl = self.ttl;
        let at = self.position(&key);
        let mut sessions = self.take_sessions();
        let ghost before = sessions@;
        match at {
            Some(i) => {
                proof {
                    lemma_by_key(before, i as int);
                }
                let last = sessions[i].last_access;
                if !(now <= last || now - last <= ttl) {
                    sessions[i].created_at = now;
                }
                sessions[i].state = state;
                sessions[i].last_access = now;
                proof {
                    lemma_by_key_update(before, sessions@, i as int);
                }
            },
            None => {
                let session = ChainSession { key, state, created_at: now, last_access: now };
                proof {
                    lemma_by_key_push(before, session);
                }
                sessions.push(session);
            },
        }
        self.put_sessions(sessions);
        assert(self@ =~= after_put(old(self)@, key@, state, now, ttl));
    }

    /// Drops every session that has expired by `now` and tells how many
    /// that were. The live sessions stay as they are.
    pub fn sweep(&mut self, now: u64) -> (dropped: usize)
        ensures
            final(self).lifetime() == old(self).lifetime(),
            final(self)@ == live_at(old(self)@, now, old(self).lifetime()),
            dropped == old(self)@.len() - final(self)@.len(),
    {
        proof {
            use_type_invariant(&*self);
        }
        let ttl = self.ttl;
        let mut sessions = self.take_sessions();
        let ghost before = sessions@;
        let held = sessions.len();
        let mut dropped: usize = 0;
        let mut i: usize = 0;
        while i < sessions.len()
            invariant
                distinct_keys(before),
                distinct_keys(sessions@),
                i <= sessions@.len(),
                dropped + sessions@.len() == before.len() == held,
                forall|j: int|
                    0 <= j < i ==> is_live(#[trigger] sessions@[j].last_access, now, ttl),
                forall|j: int|
                    0 <= j < sessions@.len() ==> before.contains(#[trigger] sessions@[j]),
                forall|o: int|
                    0 <= o < before.len() && is_live(before[o].last_access, now, ttl)
                        ==> sessions@.contains(#[trigger] before[o]),
            decreases sessions@.len() - i,
        {
            let last = sessions[i].last_access;
            if now <= last || now - last <= ttl {
                i += 1;
            } else {
                let ghost current = sessions@;
                proof {
                    lemma_by_key_remove(current, i as int);
                }
                sessions.remove(i);
                dropped += 1;
                proof {
                    let kept = sessions@;
                    assert forall|j: int| 0 <= j < kept.len() implies before.contains(
                        #[trigger] kept[j],
                    ) by {
                        if j < i {
                            assert(kept[j] == current[j]);
                        } else {
                            assert(kept[j] == current[j + 1]);
                        }
                    }
                    assert forall|j: int| 0 <= j < i implies is_live(
                        #[trigger] kept[j].last_access,
                        now,
                        ttl,
                    ) by {
                        assert(kept[j] == current[j]);
                    }
                    assert forall|o: int|
                        0 <= o < before.len() && is_live(
                            before[o].last_access,
                            now,
                            ttl,
                        ) implies kept.contains(#[trigger] before[o]) by {
                        assert(current.contains(before[o]));
                        let c = choose|c: int| 0 <= c < current.len() && current[c] == before[o];
                        if c < i {
                            assert(kept[c] == before[o]);
                        } else {
                            assert(c > i);
                            assert(kept[c - 1] == before[o]);
                        }
                    }
                }
            }
        }
        proof {
            lemma_by_key_kept(before, sessions@, now, ttl);
            lemma_by_key_len(before);
            lemma_by_key_len(sessions@);
        }
        self.put_sessions(sessions);
        dropped
    }

    /// The number of sessions held, those included that have expired and
    /// are not dropped yet.
    pub fn len(&self) -> (n: usize)
        ensures
            n == self@.len(),
            self@.dom().finite(),
    {
        proof {
            use_type_invariant(self);
            lemma_by_key_len(self.sessions@);
        }
        self.sessions.len()
    }
}

/// A session that was stored and then left alone for longer than the time
/// to live is gone: a lookup finds nothing and drops what is left of it.
pub proof fn lemma_expired_session_is_gone<V>(
    sessions: Map<Seq<char>, SessionView<V>>,
    key: Seq<char>,
    state: V,
    stored_at: u64,
    now: u64,
    ttl: u64,
)
    requires
        now - stored_at > ttl,
    ensures
        found(after_put(sessions, key, state, stored_at, ttl), key, now, ttl) is None,
        !after_get(after_put(sessions, key, state, stored_at, ttl), key, now, ttl).contains_key(
            key,
        ),
{
}

/// A session that was stored is found, with the state that was stored, at
/// any time up to the time to live after it.
pub proof fn lemma_live_session_is_found<V>(
    sessions: Map<Seq<char>, SessionView<V>>,
    key: Seq<char>,
    state: V,
    stored_at: u64,
    now: u64,
    ttl: u64,
)
    requires
        now - stored_at <= ttl,
    ensures
        found(after_put(sessions, key, state, stored_at, ttl), key, now, ttl) == Some(state),
{
}

/// A lookup counts as a use: a session that is looked up while it lives is
/// alive for the whole time to live after the lookup.
pub proof fn lemma_lookup_extends_life<V>(
    sessions: Map<Seq<char>, SessionView<V>>,
    key: Seq<char>,
    looked_up_at: u64,
    now: u64,
    ttl: u64,
)
    requires
        found(sessions, key, looked_up_at, ttl) is Some,
        now - looked_up_at <= ttl,
    ensures
        found(after_get(sessions, key, looked_up_at, ttl), key, now, ttl) == found(
            sessions,
            key,
            looked_up_at,
            ttl,
        ),
{
}

/// An expired session is as good as none: looking it up finds what a cache
/// without it would find, and storing over it gives what storing into a
/// cache without it would give. The same holds of a cache that was swept.
pub proof fn lemma_expired_is_cold_miss<V>(
    sessions: Map<Seq<char>, SessionView<V>>,
    key: Seq<char>,
    state: V,
    now: u64,
    ttl: u64,
)
    requires
        sessions.contains_key(key),
        !is_live(sessions[key].last_access, now, ttl),
    ensures
        found(sessions, key, now, ttl) == found(sessions.remove(key), key, now, ttl),
        after_get(sessions, key, now, ttl) == after_get(sessions.remove(key), key, now, ttl),
        after_put(sessions, key, state, now, ttl) == after_put(
            sessions.remove(key),
            key,
            state,
            now,
            ttl,
        ),
        found(live_at(sessions, now, ttl), key, now, ttl) is None,
{
    assert(after_put(sessions, key, state, now, ttl) =~= after_put(
        sessions.remove(key),
        key,
        state,
        now,
        ttl,
    ));
}

} // verus!
