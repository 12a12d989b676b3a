//! The session store: a durable session table, a fast-path cache, and
//! the per-session ceremony slot.
//!
//! The durable table maps a session token to its owning user (`None`
//! while the session is anonymous, as it is between the start and the
//! finish of a passkey authentication). The cache holds a subset of the
//! authenticated bindings; since every operation keeps the cache a
//! subset of the durable table, a cache hit alone is sound proof of a
//! session's validity, and [`SessionStore::resolve`] answers from the
//! cache first, repopulating it on a durable hit.
//!
//! At most one authenticated session exists per user: inserting a
//! session for a user supersedes that user's prior session everywhere
//! ("last login wins").

use vstd::prelude::*;

use crate::assoc::{
    distinct_keys, lemma_get_push, lemma_get_remove, lemma_get_some_contains, lemma_push_contains,
    lemma_push_distinct, lemma_remove_absent, lemma_remove_contains, lemma_remove_distinct,
    lookup, remove_entry,
    remove_key, spec_get, upsert,
};
use crate::errors::AuthError;
use crate::token::new_token;
use crate::webauthn::CeremonyState;

verus! {

/// The mathematical state of a [`SessionStore`].
#[verifier::ext_equal]
pub struct StoreModel {
    /// Durable session table: token to owning user.
    pub sessions: Seq<(u128, Option<u128>)>,
    /// Fast-path cache: token to user, a subset of `sessions`.
    pub cache: Seq<(u128, u128)>,
    /// Ceremony slots: token to in-flight ceremony state.
    pub ceremonies: Seq<(u128, CeremonyState)>,
}

/// The first session token owned by `uid`, if any.
pub open spec fn session_of_user_seq(s: Seq<(u128, Option<u128>)>, uid: u128) -> Option<u128>
    decreases s.len(),
{
    if s.len() == 0 {
        None
    } else if s[0].1 == Some(uid) {
        Some(s[0].0)
    } else {
        session_of_user_seq(s.drop_first(), uid)
    }
}

impl StoreModel {
    /// The record of session `sid`: absent, anonymous, or owned.
    pub open spec fn session(self, sid: u128) -> Option<Option<u128>> {
        spec_get(self.sessions, sid)
    }

    /// The authenticated owner of session `sid`, if the session exists
    /// and is authenticated.
    pub open spec fn user_of(self, sid: u128) -> Option<u128> {
        match self.session(sid) {
            Some(owner) => owner,
            None => None,
        }
    }

    /// The session token owned by `uid`, if any.
    pub open spec fn session_of_user(self, uid: u128) -> Option<u128> {
        session_of_user_seq(self.sessions, uid)
    }

    /// The ceremony slot of session `sid`; an absent entry is an empty
    /// slot.
    pub open spec fn ceremony_of(self, sid: u128) -> CeremonyState {
        match spec_get(self.ceremonies, sid) {
            Some(c) => c,
            None => CeremonyState::Empty,
        }
    }

    /// Well-formedness: distinct keys everywhere, the cache a subset of
    /// the durable table, at most one session per user, and ceremony
    /// slots only for live sessions.
    pub open spec fn wf(self) -> bool {
        &&& distinct_keys(self.sessions)
        &&& distinct_keys(self.cache)
        &&& distinct_keys(self.ceremonies)
        &&& forall|p: (u128, u128)| #[trigger]
            self.cache.contains(p) ==> self.session(p.0) == Some(Some(p.1))
        &&& forall|p: (u128, Option<u128>), q: (u128, Option<u128>)|
            #![trigger self.sessions.contains(p), self.sessions.contains(q)]
            self.sessions.contains(p) && self.sessions.contains(q) && p.1 is Some && q.1 == p.1
                ==> p == q
        &&& forall|p: (u128, CeremonyState)| #[trigger]
            self.ceremonies.contains(p) ==> self.session(p.0) is Some
    }

    /// The store with every trace of session `sid` removed.
    pub open spec fn drop_session(self, sid: u128) -> StoreModel {
        StoreModel {
            sessions: remove_key(self.sessions, sid),
            cache: remove_key(self.cache, sid),
            ceremonies: remove_key(self.ceremonies, sid),
        }
    }

    /// The store with `uid`'s prior session (if any) removed.
    pub open spec fn prune_user(self, uid: u128) -> StoreModel {
        match self.session_of_user(uid) {
            Some(old_sid) => self.drop_session(old_sid),
            None => self,
        }
    }

    /// The store after inserting a fresh authenticated session `sid`
    /// for `uid`, superseding `uid`'s prior session.
    pub open spec fn insert_session(self, sid: u128, uid: u128) -> StoreModel {
        let pruned = self.prune_user(uid);
        StoreModel {
            sessions: pruned.sessions.push((sid, Some(uid))),
            cache: pruned.cache,
            ceremonies: pruned.ceremonies,
        }
    }

    /// The store after inserting a fresh anonymous session `sid`.
    pub open spec fn insert_anonymous(self, sid: u128) -> StoreModel {
        StoreModel {
            sessions: self.sessions.push((sid, None)),
            cache: self.cache,
            ceremonies: self.ceremonies,
        }
    }

    /// The store after session `sid` became owned by `uid`,
    /// superseding `uid`'s prior session.
    pub open spec fn promote_session(self, sid: u128, uid: u128) -> StoreModel {
        let pruned = self.prune_user(uid);
        StoreModel {
            sessions: remove_key(pruned.sessions, sid).push((sid, Some(uid))),
            cache: remove_key(pruned.cache, sid),
            ceremonies: pruned.ceremonies,
        }
    }

    /// The store after a resolve of `sid` repopulated the cache.
    pub open spec fn refresh(self, sid: u128) -> StoreModel {
        match self.user_of(sid) {
            Some(uid) => if spec_get(self.cache, sid) is Some {
                self
            } else {
                StoreModel {
                    sessions: self.sessions,
                    cache: self.cache.push((sid, uid)),
                    ceremonies: self.ceremonies,
                }
            },
            None => self,
        }
    }

    /// The store after the ceremony slot of `sid` was set to `c`.
    pub open spec fn with_ceremony(self, sid: u128, c: CeremonyState) -> StoreModel {
        StoreModel {
            sessions: self.sessions,
            cache: self.cache,
            ceremonies: remove_key(self.ceremonies, sid).push((sid, c)),
        }
    }

    /// The store after the ceremony slot of `sid` was consumed.
    pub open spec fn without_ceremony(self, sid: u128) -> StoreModel {
        StoreModel {
            sessions: self.sessions,
            cache: self.cache,
            ceremonies: remove_key(self.ceremonies, sid),
        }
    }
}

/// The kind of ceremony state a session's slot holds, as an
/// observation without the opaque protocol state.
#[derive(Clone, Copy, Debug, PartialEq, Eq)]
pub enum CeremonyKind {
    /// No ceremony in flight.
    Empty,
    /// A registration ceremony awaiting the client's response.
    Registration,
    /// An authentication ceremony awaiting the client's response.
    Authentication,
}

/// The two-tier session store.
pub struct SessionStore {
    durable: Vec<(u128, Option<u128>)>,
    cache: Vec<(u128, u128)>,
    ceremonies: Vec<(u128, CeremonyState)>,
}

impl View for SessionStore {
    type V = StoreModel;

    closed spec fn view(&self) -> StoreModel {
        StoreModel { sessions: self.durable@, cache: self.cache@, ceremonies: self.ceremonies@ }
    }
}

impl SessionStore {
    /// An empty store.
    pub fn new() -> (r: SessionStore)
        ensures
            r@ == (StoreModel {
                sessions: Seq::<(u128, Option<u128>)>::empty(),
                cache: Seq::<(u128, u128)>::empty(),
                ceremonies: Seq::<(u128, CeremonyState)>::empty(),
            }),
            r@.wf(),
    {
        let r = SessionStore { durable: Vec::new(), cache: Vec::new(), ceremonies: Vec::new() };
        proof {
            assert(r@.sessions =~= Seq::<(u128, Option<u128>)>::empty());
            assert(r@.cache =~= Seq::<(u128, u128)>::empty());
            assert(r@.ceremonies =~= Seq::<(u128, CeremonyState)>::empty());
            assert(r@ =~= (StoreModel {
                sessions: Seq::<(u128, Option<u128>)>::empty(),
                cache: Seq::<(u128, u128)>::empty(),
                ceremonies: Seq::<(u128, CeremonyState)>::empty(),
            }));
        }
        r
    }

    /// Finds the index of `uid`'s session in the durable table.
    fn find_user_index(&self, uid: u128) -> (r: Option<usize>)
        ensures
            match r {
                Some(i) => i < self@.sessions.len() && self@.sessions[i as int].1 == Some(uid)
                    && self@.session_of_user(uid) == Some(self@.sessions[i as int].0),
                None => self@.session_of_user(uid) is None,
            },
    {
        let n = self.durable.len();
        let mut i: usize = 0;
        while i < n
            invariant
                n == self.durable@.len(),
                i <= n,
                forall|j: int| 0 <= j < i ==> (#[trigger] self.durable@[j]).1 != Some(uid),
            decreases n - i,
        {
            match self.durable[i].1 {
                Some(u) => {
                    if u == uid {
                        proof {
                            lemma_sou_found_at(self.durable@, uid, i as int);
                        }
                        return Some(i);
                    }
                },
                None => {},
            }
            i += 1;
        }
        proof {
            lemma_sou_none(self.durable@, uid);
        }
        None
    }

    /// Removes every trace of `uid`'s prior session.
    fn prune_user(&mut self, uid: u128)
        requires
            old(self)@.wf(),
        ensures
            final(self)@ == old(self)@.prune_user(uid),
            final(self)@.wf(),
            final(self)@.session_of_user(uid) is None,
    {
        let ghost m0 = self@;
        match self.find_user_index(uid) {
            Some(i) => {
                let old_sid = self.durable[i].0;
                proof {
                    lemma_sou_some_get(m0.sessions, uid);
                }
                remove_entry(&mut self.durable, old_sid);
                remove_entry(&mut self.cache, old_sid);
                remove_entry(&mut self.ceremonies, old_sid);
                proof {
                    lemma_drop_session_wf(m0, old_sid);
                    assert(final(self)@ =~= m0.drop_session(old_sid));
                    lemma_drop_session_sou(m0, old_sid, uid);
                }
            },
            None => {
                proof {
                    assert(final(self)@ =~= m0);
                }
            },
        }
    }

    /// Inserts a fresh authenticated session under the token `sid`,
    /// superseding any prior session of `uid`.
    ///
    /// The token must be fresh; a token that already names a session is
    /// refused as a storage conflict, with the store unchanged.
    pub fn insert_session(&mut self, sid: u128, uid: u128) -> (r: Result<(), AuthError>)
        requires
            old(self)@.wf(),
        ensures
            r is Ok <==> old(self)@.session(sid) is None,
            r is Ok ==> final(self)@ == old(self)@.insert_session(sid, uid),
            r matches Err(e) ==> e is StorageError && final(self)@ == old(self)@,
            final(self)@.wf(),
            r is Ok ==> final(self)@.user_of(sid) == Some(uid),
    {
        let ghost m0 = self@;
        if lookup(&self.durable, sid).is_some() {
            return Err(AuthError::StorageError);
        }
        self.prune_user(uid);
        let ghost m1 = self@;
        proof {
            assert(m1.session(sid) is None) by {
                lemma_prune_get(m0, uid, sid);
            }
            lemma_push_session_wf(m1, sid, uid);
        }
        self.durable.push((sid, Some(uid)));
        proof {
            assert(final(self)@ =~= m0.insert_session(sid, uid));
            lemma_get_push(m1.sessions, (sid, Some(uid)), sid);
        }
        Ok(())
    }

    /// Creates a session for `uid` under a fresh random token and
    /// returns the token.
    pub fn create_session(&mut self, uid: u128) -> (r: Result<u128, AuthError>)
        requires
            old(self)@.wf(),
        ensures
            r matches Ok(sid) ==> old(self)@.session(sid) is None && final(self)@ == old(self)@.insert_session(sid, uid) && final(self)@.user_of(sid) == Some(uid),
            r matches Err(e) ==> e is StorageError && final(self)@ == old(self)@,
            final(self)@.wf(),
    {
        let sid = new_token();
        match self.insert_session(sid, uid) {
            Ok(()) => Ok(sid),
            Err(e) => Err(e),
        }
    }

    /// Creates an anonymous session (no owner yet) under a fresh random
    /// token and returns the token.
    pub fn create_anonymous_session(&mut self) -> (r: Result<u128, AuthError>)
        requires
            old(self)@.wf(),
        ensures
            r matches Ok(sid) ==> old(self)@.session(sid) is None && final(self)@ == old(self)@.insert_anonymous(sid) && final(self)@.session(sid) == Some(None::<u128>),
            r matches Err(e) ==> e is StorageError && final(self)@ == old(self)@,
            final(self)@.wf(),
    {
        let ghost m0 = self@;
        let sid = new_token();
        if lookup(&self.durable, sid).is_some() {
            return Err(AuthError::StorageError);
        }
        proof {
            lemma_push_anon_wf(m0, sid);
        }
        self.durable.push((sid, None));
        proof {
            assert(final(self)@ =~= m0.insert_anonymous(sid));
            lemma_get_push(m0.sessions, (sid, None), sid);
        }
        Ok(sid)
    }

    /// Makes session `sid` owned by `uid`, superseding any prior
    /// session of `uid`. The session must exist.
    pub fn promote_session(&mut self, sid: u128, uid: u128) -> (r: Result<(), AuthError>)
        requires
            old(self)@.wf(),
        ensures
            r is Ok <==> old(self)@.session(sid) is Some,
            r is Ok ==> final(self)@ == old(self)@.promote_session(sid, uid) && final(self)@.user_of(sid) == Some(uid),
            r matches Err(e) ==> e is InvalidSession && final(self)@ == old(self)@,
            final(self)@.wf(),
    {
        let ghost m0 = self@;
        if lookup(&self.durable, sid).is_none() {
            return Err(AuthError::InvalidSession);
        }
        self.prune_user(uid);
        let ghost m1 = self@;
        remove_entry(&mut self.durable, sid);
        remove_entry(&mut self.cache, sid);
        let ghost m2 = self@;
        proof {
            lemma_get_remove(m1.sessions, sid, sid);
            lemma_promote_wf(m1, sid, uid);
        }
        self.durable.push((sid, Some(uid)));
        proof {
            assert(final(self)@ =~= m0.promote_session(sid, uid));
            lemma_get_push(m2.sessions, (sid, Some(uid)), sid);
        }
        Ok(())
    }

    /// Which kind of ceremony state the slot of `sid` holds.
    pub fn ceremony_kind(&self, sid: u128) -> (r: CeremonyKind)
        ensures
            r is Registration <==> self@.ceremony_of(sid) is Registration,
            r is Authentication <==> self@.ceremony_of(sid) is Authentication,
            r is Empty <==> self@.ceremony_of(sid) is Empty,
    {
        match crate::assoc::find_index(&self.ceremonies, sid) {
            Some(i) => match &self.ceremonies[i].1 {
                CeremonyState::Empty => CeremonyKind::Empty,
                CeremonyState::Registration(_) => CeremonyKind::Registration,
                CeremonyState::Authentication(_) => CeremonyKind::Authentication,
            },
            None => CeremonyKind::Empty,
        }
    }

    /// Whether `sid` names a live session (anonymous or owned).
    pub fn has_session(&self, sid: u128) -> (r: bool)
        ensures
            r == (self@.session(sid) is Some),
    {
        lookup(&self.durable, sid).is_some()
    }

    /// Resolves a session token to its authenticated owner: cache
    /// first, then the durable table, repopulating the cache on a
    /// durable hit. `None` is the ordinary "not authenticated" answer.
    pub fn resolve(&mut self, sid: u128) -> (r: Option<u128>)
        requires
            old(self)@.wf(),
        ensures
            r == old(self)@.user_of(sid),
            final(self)@ == old(self)@.refresh(sid),
            final(self)@.wf(),
            final(self)@.user_of(sid) == r,
    {
        let ghost m0 = self@;
        match lookup(&self.cache, sid) {
            Some(uid) => {
                proof {
                    lemma_get_some_contains(m0.cache, sid);
                    assert(m0.session(sid) == Some(Some(uid)));
                    assert(final(self)@ =~= m0.refresh(sid));
                }
                Some(uid)
            },
            None => {
                match lookup(&self.durable, sid) {
                    Some(owner) => match owner {
                        Some(uid) => {
                            proof {
                                lemma_refresh_wf(m0, sid, uid);
                            }
                            self.cache.push((sid, uid));
                            proof {
                                assert(final(self)@ =~= m0.refresh(sid));
                            }
                            Some(uid)
                        },
                        None => {
                            proof {
                                assert(final(self)@ =~= m0.refresh(sid));
                            }
                            None
                        },
                    },
                    None => {
                        proof {
                            assert(final(self)@ =~= m0.refresh(sid));
                        }
                        None
                    },
                }
            },
        }
    }

    /// Removes session `sid` from the durable table, the cache, and the
    /// ceremony slots. Invalidating an unknown token does nothing and
    /// is not an error.
    pub fn invalidate(&mut self, sid: u128)
        requires
            old(self)@.wf(),
        ensures
            final(self)@ == old(self)@.drop_session(sid),
            final(self)@.wf(),
            final(self)@.session(sid) is None,
            final(self)@.user_of(sid) is None,
    {
        let ghost m0 = self@;
        remove_entry(&mut self.durable, sid);
        remove_entry(&mut self.cache, sid);
        remove_entry(&mut self.ceremonies, sid);
        proof {
            lemma_drop_session_wf(m0, sid);
            assert(final(self)@ =~= m0.drop_session(sid));
            lemma_get_remove(m0.sessions, sid, sid);
        }
    }

    /// Sets the ceremony slot of session `sid`, returning the state it
    /// held before (an overwritten in-flight ceremony is abandoned).
    pub fn set_ceremony(&mut self, sid: u128, c: CeremonyState) -> (r: Result<
        CeremonyState,
        AuthError,
    >)
        requires
            old(self)@.wf(),
        ensures
            r is Ok <==> old(self)@.session(sid) is Some,
            r matches Ok(prev) ==> prev == old(self)@.ceremony_of(sid) && final(self)@ == old(self)@.with_ceremony(sid, c) && final(self)@.ceremony_of(sid) == c,
            r matches Err(e) ==> e is InvalidSession && final(self)@ == old(self)@,
            final(self)@.wf(),
    {
        let ghost m0 = self@;
        if lookup(&self.durable, sid).is_none() {
            return Err(AuthError::InvalidSession);
        }
        let prev = match upsert(&mut self.ceremonies, sid, c) {
            Some(p) => p,
            None => CeremonyState::Empty,
        };
        proof {
            assert(final(self)@ =~= m0.with_ceremony(sid, c));
            lemma_get_remove(m0.ceremonies, sid, sid);
            lemma_get_push(remove_key(m0.ceremonies, sid), (sid, c), sid);
            lemma_with_ceremony_wf(m0, sid, c);
        }
        Ok(prev)
    }

    /// Takes the ceremony slot of session `sid`, leaving it empty: the
    /// state is consumed whatever the caller then does with it.
    pub fn take_ceremony(&mut self, sid: u128) -> (r: Result<CeremonyState, AuthError>)
        requires
            old(self)@.wf(),
        ensures
            r is Ok <==> old(self)@.session(sid) is Some,
            r matches Ok(prev) ==> prev == old(self)@.ceremony_of(sid) && final(self)@ == old(self)@.without_ceremony(sid) && final(self)@.ceremony_of(sid) is Empty,
            r matches Err(e) ==> e is InvalidSession && final(self)@ == old(self)@,
            final(self)@.wf(),
    {
        let ghost m0 = self@;
        if lookup(&self.durable, sid).is_none() {
            return Err(AuthError::InvalidSession);
        }
        let prev = match remove_entry(&mut self.ceremonies, sid) {
            Some(p) => p,
            None => CeremonyState::Empty,
        };
        proof {
            assert(final(self)@ =~= m0.without_ceremony(sid));
            lemma_get_remove(m0.ceremonies, sid, sid);
            lemma_without_ceremony_wf(m0, sid);
        }
        Ok(prev)
    }
}

/// Taking a ceremony slot and putting the taken state back restores
/// every observation: sessions and cache are untouched and every
/// session's ceremony slot reads as before.
pub proof fn lemma_restore_ceremony(m: StoreModel, sid: u128, oc: CeremonyState)
    requires
        oc == m.ceremony_of(sid),
    ensures
        ({
            let restored = m.without_ceremony(sid).with_ceremony(sid, oc);
            &&& restored.sessions == m.sessions
            &&& restored.cache == m.cache
            &&& forall|k: u128| restored.ceremony_of(k) == m.ceremony_of(k)
        }),
{
    let restored = m.without_ceremony(sid).with_ceremony(sid, oc);
    assert(remove_key(remove_key(m.ceremonies, sid), sid) =~= remove_key(m.ceremonies, sid))
        by {
        lemma_get_remove(m.ceremonies, sid, sid);
        crate::assoc::lemma_remove_absent(remove_key(m.ceremonies, sid), sid);
    }
    assert forall|k: u128| restored.ceremony_of(k) == m.ceremony_of(k) by {
        lemma_get_remove(m.ceremonies, sid, k);
        lemma_get_push(remove_key(m.ceremonies, sid), (sid, oc), k);
    }
}

/// A cache hit alone is sound proof of a session's validity: whatever
/// binding the cache holds is also the durable table's answer, so
/// [`SessionStore::resolve`] may trust the fast path without
/// corroborating against the durable tier.
pub proof fn lemma_cache_hit_sound(m: StoreModel, sid: u128)
    requires
        m.wf(),
        spec_get(m.cache, sid) is Some,
    ensures
        m.user_of(sid) == spec_get(m.cache, sid),
{
    lemma_get_some_contains(m.cache, sid);
}

/// Session round trip: a session created under a fresh token resolves
/// to its user, and once it is invalidated it resolves to nothing;
/// invalidating it again changes nothing, so a second invalidation is
/// as harmless as the first.
pub proof fn lemma_session_round_trip(m: StoreModel, sid: u128, uid: u128)
    requires
        m.wf(),
        m.session(sid) is None,
    ensures
        m.insert_session(sid, uid).user_of(sid) == Some(uid),
        m.insert_session(sid, uid).drop_session(sid).user_of(sid) is None,
        m.drop_session(sid).drop_session(sid) == m.drop_session(sid),
{
    let m1 = m.insert_session(sid, uid);
    lemma_prune_get(m, uid, sid);
    lemma_get_push(m.prune_user(uid).sessions, (sid, Some(uid)), sid);
    lemma_get_remove(m1.sessions, sid, sid);
    lemma_invalidate_idempotent(m, sid);
}

/// Invalidation is idempotent: removing a session twice is the same as
/// removing it once.
pub proof fn lemma_invalidate_idempotent(m: StoreModel, sid: u128)
    requires
        m.wf(),
    ensures
        m.drop_session(sid).drop_session(sid) == m.drop_session(sid),
{
    lemma_remove_distinct(m.sessions, sid);
    lemma_remove_distinct(m.cache, sid);
    lemma_remove_distinct(m.ceremonies, sid);
    lemma_remove_absent(remove_key(m.sessions, sid), sid);
    lemma_remove_absent(remove_key(m.cache, sid), sid);
    lemma_remove_absent(remove_key(m.ceremonies, sid), sid);
    assert(m.drop_session(sid).drop_session(sid) =~= m.drop_session(sid));
}

/// Starting a new ceremony overwrites whatever ceremony state the
/// session held: only the new state remains in the slot.
pub proof fn lemma_ceremony_overwrite(
    m: StoreModel,
    sid: u128,
    c1: CeremonyState,
    c2: CeremonyState,
)
    ensures
        m.with_ceremony(sid, c1).with_ceremony(sid, c2).ceremony_of(sid) == c2,
        m.with_ceremony(sid, c1).ceremony_of(sid) == c1,
{
    let w1 = m.with_ceremony(sid, c1);
    lemma_get_push(remove_key(m.ceremonies, sid), (sid, c1), sid);
    lemma_get_remove(m.ceremonies, sid, sid);
    lemma_get_push(remove_key(w1.ceremonies, sid), (sid, c2), sid);
    lemma_get_remove(w1.ceremonies, sid, sid);
}

/// A token that names no session holds no ceremony state either.
pub proof fn lemma_no_session_no_ceremony(m: StoreModel, sid: u128)
    requires
        m.wf(),
        m.session(sid) is None,
    ensures
        m.ceremony_of(sid) is Empty,
{
    if spec_get(m.ceremonies, sid) is Some {
        lemma_get_some_contains(m.ceremonies, sid);
    }
}

/// If a session with owner `uid` is found at `i` and none earlier, the
/// first owned session is the one at `i`.
proof fn lemma_sou_found_at(s: Seq<(u128, Option<u128>)>, uid: u128, i: int)
    requires
        0 <= i < s.len(),
        s[i].1 == Some(uid),
        forall|j: int| 0 <= j < i ==> (#[trigger] s[j]).1 != Some(uid),
    ensures
        session_of_user_seq(s, uid) == Some(s[i].0),
    decreases i,
{
    if i > 0 {
        assert(forall|j: int|
            0 <= j < s.drop_first().len() ==> (#[trigger] s.drop_first()[j]) == s[j + 1]);
        lemma_sou_found_at(s.drop_first(), uid, i - 1);
    }
}

/// If no pair is owned by `uid`, no session of `uid` is found.
proof fn lemma_sou_none(s: Seq<(u128, Option<u128>)>, uid: u128)
    requires
        forall|j: int| 0 <= j < s.len() ==> (#[trigger] s[j]).1 != Some(uid),
    ensures
        session_of_user_seq(s, uid) is None,
    decreases s.len(),
{
    if s.len() > 0 {
        assert(forall|j: int|
            0 <= j < s.drop_first().len() ==> (#[trigger] s.drop_first()[j]) == s[j + 1]);
        lemma_sou_none(s.drop_first(), uid);
    }
}

/// The found session of `uid` is a binding of the table.
proof fn lemma_sou_some_get(s: Seq<(u128, Option<u128>)>, uid: u128)
    requires
        distinct_keys(s),
        session_of_user_seq(s, uid) is Some,
    ensures
        spec_get(s, session_of_user_seq(s, uid).unwrap()) == Some(Some(uid)),
        s.contains((session_of_user_seq(s, uid).unwrap(), Some(uid))),
    decreases s.len(),
{
    if s.len() > 0 {
        if s[0].1 == Some(uid) {
            assert(s.contains(s[0]));
        } else {
            assert(forall|j: int|
                0 <= j < s.drop_first().len() ==> (#[trigger] s.drop_first()[j]) == s[j + 1]);
            lemma_sou_some_get(s.drop_first(), uid);
            let sid = session_of_user_seq(s, uid).unwrap();
            assert(s.drop_first().contains((sid, Some(uid))));
            let j = choose|j: int|
                0 <= j < s.drop_first().len() && s.drop_first()[j] == (sid, Some(uid));
            assert(s[j + 1] == (sid, Some(uid)));
            assert(s[0].0 != sid);
        }
    }
}

/// Dropping a session from every table preserves well-formedness.
proof fn lemma_drop_session_wf(m: StoreModel, sid: u128)
    requires
        m.wf(),
    ensures
        m.drop_session(sid).wf(),
        m.drop_session(sid).session(sid) is None,
    decreases 0int,
{
    let d = m.drop_session(sid);
    lemma_remove_distinct(m.sessions, sid);
    lemma_remove_distinct(m.cache, sid);
    lemma_remove_distinct(m.ceremonies, sid);
    lemma_get_remove(m.sessions, sid, sid);
    assert forall|p: (u128, u128)| #[trigger] d.cache.contains(p) implies d.session(p.0) == Some(
        Some(p.1),
    ) by {
        lemma_remove_contains(m.cache, sid, p);
        lemma_get_remove(m.sessions, sid, p.0);
    }
    assert forall|p: (u128, Option<u128>), q: (u128, Option<u128>)|
        d.sessions.contains(p) && d.sessions.contains(q) && p.1 is Some && q.1
            == p.1 implies p == q by {
        lemma_remove_contains(m.sessions, sid, p);
        lemma_remove_contains(m.sessions, sid, q);
    }
    assert forall|p: (u128, CeremonyState)| #[trigger]
        d.ceremonies.contains(p) implies d.session(p.0) is Some by {
        lemma_remove_contains(m.ceremonies, sid, p);
        lemma_get_remove(m.sessions, sid, p.0);
    }
}

/// After dropping the session that `uid` owned, `uid` owns none.
proof fn lemma_drop_session_sou(m: StoreModel, sid: u128, uid: u128)
    requires
        m.wf(),
        m.session_of_user(uid) == Some(sid),
    ensures
        m.drop_session(sid).session_of_user(uid) is None,
{
    lemma_sou_some_get(m.sessions, uid);
    let d = m.drop_session(sid);
    assert forall|j: int| 0 <= j < d.sessions.len() implies (#[trigger] d.sessions[j]).1 != Some(
        uid,
    ) by {
        let p = d.sessions[j];
        assert(d.sessions.contains(p));
        lemma_remove_contains(m.sessions, sid, p);
        if p.1 == Some(uid) {
            assert(m.sessions.contains((sid, Some(uid))));
        }
    }
    lemma_sou_none(d.sessions, uid);
}

/// Pruning does not create a binding for an absent token.
proof fn lemma_prune_get(m: StoreModel, uid: u128, sid: u128)
    requires
        m.wf(),
        m.session(sid) is None,
    ensures
        m.prune_user(uid).session(sid) is None,
{
    match m.session_of_user(uid) {
        Some(old_sid) => {
            lemma_get_remove(m.sessions, old_sid, sid);
        },
        None => {},
    }
}

/// Pushing a fresh authenticated session onto a pruned store keeps it
/// well-formed.
proof fn lemma_push_session_wf(m: StoreModel, sid: u128, uid: u128)
    requires
        m.wf(),
        m.session(sid) is None,
        m.session_of_user(uid) is None,
    ensures
        (StoreModel {
            sessions: m.sessions.push((sid, Some(uid))),
            cache: m.cache,
            ceremonies: m.ceremonies,
        }).wf(),
    decreases 0int,
{
    let s2 = m.sessions.push((sid, Some(uid)));
    lemma_push_distinct(m.sessions, (sid, Some(uid)));
    lemma_sou_no_owner(m.sessions, uid);
    assert forall|p: (u128, u128)| #[trigger] m.cache.contains(p) implies spec_get(s2, p.0)
        == Some(Some(p.1)) by {
        lemma_get_push(m.sessions, (sid, Some(uid)), p.0);
    }
    assert forall|p: (u128, Option<u128>), q: (u128, Option<u128>)|
        s2.contains(p) && s2.contains(q) && p.1 is Some && q.1 == p.1 implies p == q by {
        lemma_push_contains(m.sessions, (sid, Some(uid)), p);
        lemma_push_contains(m.sessions, (sid, Some(uid)), q);
        if p.1 == Some(uid) && m.sessions.contains(p) {
            let j = choose|j: int| 0 <= j < m.sessions.len() && m.sessions[j] == p;
        }
    }
    assert forall|p: (u128, CeremonyState)| #[trigger] m.ceremonies.contains(p) implies spec_get(
        s2,
        p.0,
    ) is Some by {
        lemma_get_push(m.sessions, (sid, Some(uid)), p.0);
    }
}

/// When no session is owned by `uid`, no pair carries `Some(uid)`.
proof fn lemma_sou_no_owner(s: Seq<(u128, Option<u128>)>, uid: u128)
    requires
        session_of_user_seq(s, uid) is None,
    ensures
        forall|p: (u128, Option<u128>)| s.contains(p) ==> (#[trigger] p.1) != Some(uid),
    decreases s.len(),
{
    if s.len() > 0 {
        assert(forall|j: int|
            0 <= j < s.drop_first().len() ==> (#[trigger] s.drop_first()[j]) == s[j + 1]);
        lemma_sou_no_owner(s.drop_first(), uid);
        assert forall|p: (u128, Option<u128>)| s.contains(p) implies (#[trigger] p.1) != Some(
            uid,
        ) by {
            let i = choose|i: int| 0 <= i < s.len() && s[i] == p;
            if i > 0 {
                assert(s.drop_first()[i - 1] == p);
                assert(s.drop_first().contains(p));
            }
        }
    }
}

/// Pushing a fresh anonymous session keeps the store well-formed.
proof fn lemma_push_anon_wf(m: StoreModel, sid: u128)
    requires
        m.wf(),
        m.session(sid) is None,
    ensures
        m.insert_anonymous(sid).wf(),
{
    let s2 = m.sessions.push((sid, None));
    lemma_push_distinct(m.sessions, (sid, None));
    assert forall|p: (u128, u128)| #[trigger] m.cache.contains(p) implies spec_get(s2, p.0)
        == Some(Some(p.1)) by {
        lemma_get_push(m.sessions, (sid, None), p.0);
    }
    assert forall|p: (u128, Option<u128>), q: (u128, Option<u128>)|
        s2.contains(p) && s2.contains(q) && p.1 is Some && q.1 == p.1 implies p == q by {
        lemma_push_contains(m.sessions, (sid, None), p);
        lemma_push_contains(m.sessions, (sid, None), q);
    }
    assert forall|p: (u128, CeremonyState)| #[trigger] m.ceremonies.contains(p) implies spec_get(
        s2,
        p.0,
    ) is Some by {
        lemma_get_push(m.sessions, (sid, None), p.0);
    }
}

/// Re-keying an existing session to `uid` after pruning keeps the
/// store well-formed.
proof fn lemma_promote_wf(m: StoreModel, sid: u128, uid: u128)
    requires
        m.wf(),
        m.session_of_user(uid) is None,
    ensures
        (StoreModel {
            sessions: remove_key(m.sessions, sid).push((sid, Some(uid))),
            cache: remove_key(m.cache, sid),
            ceremonies: m.ceremonies,
        }).wf(),
        spec_get(remove_key(m.sessions, sid).push((sid, Some(uid))), sid) == Some(Some(uid)),
{
    let base = remove_key(m.sessions, sid);
    let s2 = base.push((sid, Some(uid)));
    let c2 = remove_key(m.cache, sid);
    lemma_remove_distinct(m.sessions, sid);
    lemma_remove_distinct(m.cache, sid);
    lemma_push_distinct(base, (sid, Some(uid)));
    lemma_get_push(base, (sid, Some(uid)), sid);
    lemma_sou_no_owner(m.sessions, uid);
    assert forall|p: (u128, u128)| #[trigger] c2.contains(p) implies spec_get(s2, p.0)
        == Some(Some(p.1)) by {
        lemma_remove_contains(m.cache, sid, p);
        lemma_get_push(base, (sid, Some(uid)), p.0);
        lemma_get_remove(m.sessions, sid, p.0);
    }
    assert forall|p: (u128, Option<u128>), q: (u128, Option<u128>)|
        s2.contains(p) && s2.contains(q) && p.1 is Some && q.1 == p.1 implies p == q by {
        lemma_push_contains(base, (sid, Some(uid)), p);
        lemma_push_contains(base, (sid, Some(uid)), q);
        lemma_remove_contains(m.sessions, sid, p);
        lemma_remove_contains(m.sessions, sid, q);
    }
    assert forall|p: (u128, CeremonyState)| #[trigger] m.ceremonies.contains(p) implies spec_get(
        s2,
        p.0,
    ) is Some by {
        lemma_get_push(base, (sid, Some(uid)), p.0);
        lemma_get_remove(m.sessions, sid, p.0);
    }
}

/// Repopulating the cache from a durable hit keeps the store
/// well-formed.
proof fn lemma_refresh_wf(m: StoreModel, sid: u128, uid: u128)
    requires
        m.wf(),
        m.session(sid) == Some(Some(uid)),
        spec_get(m.cache, sid) is None,
    ensures
        (StoreModel {
            sessions: m.sessions,
            cache: m.cache.push((sid, uid)),
            ceremonies: m.ceremonies,
        }).wf(),
{
    lemma_push_distinct(m.cache, (sid, uid));
    assert forall|p: (u128, u128)| #[trigger]
        m.cache.push((sid, uid)).contains(p) implies m.session(p.0) == Some(Some(p.1)) by {
        lemma_push_contains(m.cache, (sid, uid), p);
    }
}

/// Setting a ceremony slot of a live session keeps the store
/// well-formed.
proof fn lemma_with_ceremony_wf(m: StoreModel, sid: u128, c: CeremonyState)
    requires
        m.wf(),
        m.session(sid) is Some,
    ensures
        m.with_ceremony(sid, c).wf(),
{
    let base = remove_key(m.ceremonies, sid);
    lemma_remove_distinct(m.ceremonies, sid);
    lemma_push_distinct(base, (sid, c));
    assert forall|p: (u128, CeremonyState)| #[trigger]
        base.push((sid, c)).contains(p) implies m.session(p.0) is Some by {
        lemma_push_contains(base, (sid, c), p);
        lemma_remove_contains(m.ceremonies, sid, p);
    }
}

/// Consuming a ceremony slot keeps the store well-formed.
proof fn lemma_without_ceremony_wf(m: StoreModel, sid: u128)
    requires
        m.wf(),
    ensures
        m.without_ceremony(sid).wf(),
{
    lemma_remove_distinct(m.ceremonies, sid);
    assert forall|p: (u128, CeremonyState)| #[trigger]
        remove_key(m.ceremonies, sid).contains(p) implies m.session(p.0) is Some by {
        lemma_remove_contains(m.ceremonies, sid, p);
    }
}

} // verus!
