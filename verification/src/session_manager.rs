use vstd::prelude::*;
use std::collections::HashMap;
use crate::types::Address;

verus! {

broadcast use vstd::std_specs::hash::group_hash_axioms;

/// Session time-to-live: 24 hours in seconds.
pub const SESSION_TTL: u64 = 86_400;
/// Maximum concurrent active sessions per player.
pub const MAX_SESSIONS_PER_PLAYER: u32 = 3;

/// A timed nebula exploration session tied to a ship.
#[derive(Clone, Copy, Debug, PartialEq, Eq, Structural)]
pub struct Session {
    pub id: u64,
    pub ship_id: u64,
    pub owner: Address,
    pub started_at: u64,
    pub expires_at: u64,
    pub active: bool,
}

/// Errors of the session manager.
#[derive(Clone, Copy, Debug, PartialEq, Eq, Structural)]
pub enum SessionError {
    SessionNotFound,
    SessionExpired,
    TooManySessions,
    NotOwner,
}

/// Sessions by id, each player's number of active sessions, and the
/// session counter.
pub struct SessionStore {
    pub sessions: HashMap<u64, Session>,
    pub player_counts: HashMap<u64, u32>,
    pub count: u64,
}

/// Active sessions of a player.
pub open spec fn active_of(m: Map<u64, u32>, player: u64) -> u32 {
    if m.contains_key(player) {
        m[player]
    } else {
        0
    }
}

/// Whether no player holds more than the allowed number of active sessions.
pub open spec fn within_cap(m: Map<u64, u32>) -> bool {
    forall|p: u64| #[trigger] active_of(m, p) <= MAX_SESSIONS_PER_PLAYER
}

/// The ids of the active sessions of `player`.
pub open spec fn active_sessions(ss: Map<u64, Session>, player: u64) -> Set<u64> {
    ss.dom().filter(|id: u64| ss[id].owner.id == player && ss[id].active)
}

/// Whether each player's recorded count is the number of its active
/// sessions, and no session id is above the session counter.
pub open spec fn counts_match(ss: Map<u64, Session>, m: Map<u64, u32>, count: u64) -> bool {
    &&& ss.dom().finite()
    &&& forall|id: u64| #[trigger] ss.contains_key(id) ==> id <= count
    &&& forall|p: u64| #[trigger] active_of(m, p) == active_sessions(ss, p).len()
}

/// Starting session `s` (numbered after the counter) adds it to its owner's
/// active sessions and one to the owner's count.
proof fn lemma_start_counts(ss: Map<u64, Session>, m: Map<u64, u32>, count: u64, s: Session)
    requires
        counts_match(ss, m, count),
        count < u64::MAX,
        s.id == count + 1,
        s.active,
        active_of(m, s.owner.id) < u32::MAX,
    ensures
        counts_match(
            ss.insert(s.id, s),
            m.insert(s.owner.id, (active_of(m, s.owner.id) + 1) as u32),
            (count + 1) as u64,
        ),
{
    let ss2 = ss.insert(s.id, s);
    let m2 = m.insert(s.owner.id, (active_of(m, s.owner.id) + 1) as u32);
    assert forall|p: u64| #[trigger] active_of(m2, p) == active_sessions(ss2, p).len() by {
        ss.dom().lemma_len_filter(|id: u64| ss[id].owner.id == p && ss[id].active);
        assert(!ss.contains_key(s.id));
        if p == s.owner.id {
            assert(active_sessions(ss2, p) =~= active_sessions(ss, p).insert(s.id));
        } else {
            assert(active_sessions(ss2, p) =~= active_sessions(ss, p));
            assert(active_of(m2, p) == active_of(m, p));
        }
    }
}

/// Closing active session `sid` removes it from its owner's active sessions
/// and one from the owner's count, which is therefore positive.
proof fn lemma_expire_counts(ss: Map<u64, Session>, m: Map<u64, u32>, count: u64, sid: u64)
    requires
        counts_match(ss, m, count),
        ss.contains_key(sid),
        ss[sid].active,
    ensures
        active_of(m, ss[sid].owner.id) > 0,
        counts_match(
            ss.insert(sid, Session { active: false, ..ss[sid] }),
            m.insert(ss[sid].owner.id, (active_of(m, ss[sid].owner.id) - 1) as u32),
            count,
        ),
{
    let o = ss[sid].owner.id;
    let ss2 = ss.insert(sid, Session { active: false, ..ss[sid] });
    let m2 = m.insert(o, (active_of(m, o) - 1) as u32);
    ss.dom().lemma_len_filter(|id: u64| ss[id].owner.id == o && ss[id].active);
    assert(active_sessions(ss, o).contains(sid));
    assert(active_of(m, o) > 0);
    assert(ss2.dom() =~= ss.dom());
    assert forall|p: u64| #[trigger] active_of(m2, p) == active_sessions(ss2, p).len() by {
        ss.dom().lemma_len_filter(|id: u64| ss[id].owner.id == p && ss[id].active);
        if p == o {
            assert(active_sessions(ss2, p) =~= active_sessions(ss, p).remove(sid));
        } else {
            assert(active_sessions(ss2, p) =~= active_sessions(ss, p));
            assert(active_of(m2, p) == active_of(m, p));
        }
    }
}

impl SessionStore {
    /// A store without sessions.
    pub fn new() -> (s: SessionStore)
        ensures
            s.sessions@ == Map::<u64, Session>::empty(),
            s.player_counts@ == Map::<u64, u32>::empty(),
            s.count == 0,
            within_cap(s.player_counts@),
            counts_match(s.sessions@, s.player_counts@, s.count),
    {
        let s = SessionStore { sessions: HashMap::new(), player_counts: HashMap::new(), count: 0 };
        proof {
            assert(s.sessions@.dom() =~= Set::<u64>::empty());
            assert forall|p: u64| #[trigger] active_of(s.player_counts@, p) == active_sessions(s.sessions@, p).len() by {
                assert(active_sessions(s.sessions@, p) =~= Set::<u64>::empty());
            }
        }
        s
    }
}

/// Start a 24-hour session for `owner` with `ship_id` at `now`, if the
/// owner has fewer than three active sessions. Returns its id.
pub fn start_session(store: &mut SessionStore, owner: Address, ship_id: u64, now: u64) -> (r: Result<u64, SessionError>)
    requires
        active_of(old(store).player_counts@, owner.id) < MAX_SESSIONS_PER_PLAYER
            ==> old(store).count < u64::MAX && now + SESSION_TTL <= u64::MAX,
    ensures
        active_of(old(store).player_counts@, owner.id) >= MAX_SESSIONS_PER_PLAYER
            ==> r == Err::<u64, SessionError>(SessionError::TooManySessions)
            && final(store).sessions@ == old(store).sessions@
            && final(store).player_counts@ == old(store).player_counts@
            && final(store).count == old(store).count,
        active_of(old(store).player_counts@, owner.id) < MAX_SESSIONS_PER_PLAYER ==> {
            let id = (old(store).count + 1) as u64;
            &&& r == Ok::<u64, SessionError>(id)
            &&& final(store).count == id
            &&& final(store).sessions@ == old(store).sessions@.insert(
                id,
                Session { id, ship_id, owner, started_at: now, expires_at: (now + SESSION_TTL) as u64, active: true },
            )
            &&& final(store).player_counts@ == old(store).player_counts@.insert(
                owner.id,
                (active_of(old(store).player_counts@, owner.id) + 1) as u32,
            )
        },
        within_cap(old(store).player_counts@) ==> within_cap(final(store).player_counts@),
        counts_match(old(store).sessions@, old(store).player_counts@, old(store).count)
            ==> counts_match(final(store).sessions@, final(store).player_counts@, final(store).count),
{
    let active_count: u32 = match store.player_counts.get(&owner.id) {
        Some(c) => *c,
        None => 0,
    };
    if active_count >= MAX_SESSIONS_PER_PLAYER {
        return Err(SessionError::TooManySessions);
    }
    let id = store.count + 1;
    store.count = id;
    let session = Session { id, ship_id, owner, started_at: now, expires_at: now + SESSION_TTL, active: true };
    let ghost before = store.player_counts@;
    proof {
        if counts_match(old(store).sessions@, before, old(store).count) {
            lemma_start_counts(old(store).sessions@, before, old(store).count, session);
        }
    }
    store.sessions.insert(id, session);
    store.player_counts.insert(owner.id, active_count + 1);
    proof {
        assert forall|p: u64| within_cap(before) implies #[trigger] active_of(store.player_counts@, p) <= MAX_SESSIONS_PER_PLAYER by {
            if p != owner.id {
                assert(active_of(before, p) <= MAX_SESSIONS_PER_PLAYER);
            }
        }
    }
    Ok(id)
}

/// Close a session at `now`: its owner may close it at any time, anyone
/// once it has expired. The owner's active count drops by one.
pub fn expire_session(store: &mut SessionStore, caller: Address, session_id: u64, now: u64) -> (r: Result<(), SessionError>)
    ensures
        ({
            let ss = old(store).sessions@;
            let s = ss[session_id];
            if !ss.contains_key(session_id) {
                r == Err::<(), SessionError>(SessionError::SessionNotFound)
            } else if !s.active {
                r == Err::<(), SessionError>(SessionError::SessionExpired)
            } else if s.owner != caller && s.expires_at > now {
                r == Err::<(), SessionError>(SessionError::NotOwner)
            } else {
                let c = active_of(old(store).player_counts@, s.owner.id);
                &&& r == Ok::<(), SessionError>(())
                &&& final(store).sessions@ == ss.insert(session_id, Session { active: false, ..s })
                &&& c > 0 ==> final(store).player_counts@ == old(store).player_counts@.insert(s.owner.id, (c - 1) as u32)
                &&& c == 0 ==> final(store).player_counts@ == old(store).player_counts@
            }
        }),
        r is Err ==> final(store).sessions@ == old(store).sessions@
            && final(store).player_counts@ == old(store).player_counts@,
        final(store).count == old(store).count,
        within_cap(old(store).player_counts@) ==> within_cap(final(store).player_counts@),
        counts_match(old(store).sessions@, old(store).player_counts@, old(store).count)
            ==> counts_match(final(store).sessions@, final(store).player_counts@, final(store).count),
{
    let mut session = match store.sessions.get(&session_id) {
        Some(s) => *s,
        None => return Err(SessionError::SessionNotFound),
    };
    if !session.active {
        return Err(SessionError::SessionExpired);
    }
    if session.owner != caller && session.expires_at > now {
        return Err(SessionError::NotOwner);
    }
    proof {
        if counts_match(old(store).sessions@, old(store).player_counts@, old(store).count) {
            lemma_expire_counts(old(store).sessions@, old(store).player_counts@, old(store).count, session_id);
        }
    }
    session.active = false;
    store.sessions.insert(session_id, session);
    let count: u32 = match store.player_counts.get(&session.owner.id) {
        Some(c) => *c,
        None => 0,
    };
    let ghost before = store.player_counts@;
    if count > 0 {
        store.player_counts.insert(session.owner.id, count - 1);
    }
    proof {
        assert forall|p: u64| within_cap(before) implies #[trigger] active_of(store.player_counts@, p) <= MAX_SESSIONS_PER_PLAYER by {
            assert(active_of(before, p) <= MAX_SESSIONS_PER_PLAYER);
        }
    }
    Ok(())
}

/// A session by id.
pub fn get_session(store: &SessionStore, session_id: u64) -> (r: Result<Session, SessionError>)
    ensures
        store.sessions@.contains_key(session_id) ==> r == Ok::<Session, SessionError>(store.sessions@[session_id]),
        !store.sessions@.contains_key(session_id) ==> r == Err::<Session, SessionError>(SessionError::SessionNotFound),
{
    match store.sessions.get(&session_id) {
        Some(s) => Ok(*s),
        None => Err(SessionError::SessionNotFound),
    }
}

} // verus!
