use vstd::prelude::*;
use std::collections::HashMap;
use crate::types::Address;

verus! {

broadcast use vstd::std_specs::hash::group_hash_axioms;

/// Most members an alliance can have.
pub const MAX_MEMBERS_PER_ALLIANCE: u32 = 50;
/// Share of votes (in percent) an alliance decision needs.
pub const MIN_VOTING_THRESHOLD: u32 = 51;
/// Treasury of a newly founded alliance.
pub const INITIAL_TREASURY: i128 = 0;

/// Errors of alliance management.
#[derive(Clone, Copy, Debug, PartialEq, Eq, Structural)]
pub enum AllianceError {
    AllianceFull,
    AllianceNotFound,
    AlreadyInAlliance,
    NotMember,
    Unauthorized,
    InvalidName,
    InsufficientVotes,
}

/// An alliance of players.
#[derive(Debug)]
pub struct Alliance {
    pub alliance_id: u64,
    pub name: String,
    pub founder: Address,
    pub created_at: u64,
    pub members: Vec<Address>,
    pub voting_threshold: u32,
    pub is_active: bool,
}

/// A player's membership in an alliance.
#[derive(Clone, Copy, Debug, PartialEq, Eq, Structural)]
pub struct MembershipRecord {
    pub alliance_id: u64,
    pub member: Address,
    pub joined_at: u64,
    pub contribution: i128,
}

/// The alliances (the one with id `i` at position `i`), the alliance each
/// player belongs to, each alliance's treasury and each member's
/// contribution (keyed by `contribution_key`).
pub struct AllianceStore {
    pub alliances: Vec<Alliance>,
    pub member_index: HashMap<u64, u64>,
    pub treasuries: HashMap<u64, i128>,
    pub contributions: HashMap<u128, i128>,
}

/// Key of the contribution of player `player` to alliance `alliance_id`.
pub open spec fn contribution_key(alliance_id: u64, player: u64) -> u128 {
    (alliance_id * 0x1_0000_0000_0000_0000 + player) as u128
}

/// Whether the membership index and the member lists agree: a player is
/// indexed under an alliance exactly when that alliance lists it, so no
/// player belongs to two alliances.
pub open spec fn membership_consistent(alliances: Seq<Alliance>, index: Map<u64, u64>) -> bool {
    &&& forall|p: u64| #[trigger] index.contains_key(p) ==> index[p] < alliances.len()
        && alliances[index[p] as int].members@.contains(Address { id: p })
    &&& forall|a: int, k: int| 0 <= a < alliances.len() && 0 <= k < alliances[a].members@.len()
        ==> index.contains_key(#[trigger] alliances[a].members@[k].id) && index[alliances[a].members@[k].id] == a
}

/// `s` without any occurrence of `p`, in order.
pub open spec fn without(s: Seq<Address>, p: Address) -> Seq<Address>
    decreases s.len(),
{
    if s.len() == 0 {
        s
    } else {
        let w = without(s.drop_last(), p);
        if s.last() == p {
            w
        } else {
            w.push(s.last())
        }
    }
}

/// `a + b` held within the range of `i128`.
pub open spec fn sat_add(a: i128, b: i128) -> i128 {
    if a + b > i128::MAX {
        i128::MAX
    } else if a + b < i128::MIN {
        i128::MIN
    } else {
        (a + b) as i128
    }
}

/// A stored amount, zero when absent.
pub open spec fn amount_or_zero<K>(m: Map<K, i128>, k: K) -> i128 {
    if m.contains_key(k) {
        m[k]
    } else {
        0
    }
}

impl AllianceStore {
    /// Well-formedness: ids match positions, no alliance is over its size
    /// limit or lists a member twice, and membership is consistent.
    pub open spec fn wf(&self) -> bool {
        &&& forall|a: int| 0 <= a < self.alliances@.len() ==> (#[trigger] self.alliances@[a]).alliance_id == a
            && self.alliances@[a].members@.len() <= MAX_MEMBERS_PER_ALLIANCE
            && self.alliances@[a].members@.no_duplicates()
        &&& membership_consistent(self.alliances@, self.member_index@)
    }

    /// A store without alliances.
    pub fn new() -> (s: AllianceStore)
        ensures
            s.wf(),
            s.alliances@ == Seq::<Alliance>::empty(),
            s.member_index@ == Map::<u64, u64>::empty(),
            s.treasuries@ == Map::<u64, i128>::empty(),
            s.contributions@ == Map::<u128, i128>::empty(),
    {
        AllianceStore {
            alliances: Vec::new(),
            member_index: HashMap::new(),
            treasuries: HashMap::new(),
            contributions: HashMap::new(),
        }
    }
}

fn key_of(alliance_id: u64, player: u64) -> (k: u128)
    ensures
        k == contribution_key(alliance_id, player),
        k == alliance_id * 0x1_0000_0000_0000_0000 + player,
{
    proof {
        assert(alliance_id * 0x1_0000_0000_0000_0000 + player <= 0xffff_ffff_ffff_ffff_ffff_ffff_ffff_ffff)
            by (nonlinear_arith)
            requires alliance_id <= 0xffff_ffff_ffff_ffff, player <= 0xffff_ffff_ffff_ffff;
    }
    (alliance_id as u128) * 0x1_0000_0000_0000_0000 + (player as u128)
}

fn saturating_add_i128(a: i128, b: i128) -> (r: i128)
    ensures
        r == sat_add(a, b),
{
    match a.checked_add(b) {
        Some(v) => v,
        None => if b > 0 { i128::MAX } else { i128::MIN },
    }
}

/// Found a new alliance named `name`, with `founder` as its first member
/// and an empty treasury.
pub fn found_alliance(store: &mut AllianceStore, founder: Address, name: String, now: u64) -> (r: Result<u64, AllianceError>)
    requires
        old(store).wf(),
    ensures
        final(store).wf(),
        old(store).member_index@.contains_key(founder.id) ==> r == Err::<u64, AllianceError>(AllianceError::AlreadyInAlliance),
        !old(store).member_index@.contains_key(founder.id) && name@.len() == 0
            ==> r == Err::<u64, AllianceError>(AllianceError::InvalidName),
        r is Err ==> final(store).alliances@ == old(store).alliances@
            && final(store).member_index@ == old(store).member_index@
            && final(store).treasuries@ == old(store).treasuries@
            && final(store).contributions@ == old(store).contributions@,
        !old(store).member_index@.contains_key(founder.id) && name@.len() > 0 ==> {
            let id = old(store).alliances@.len();
            let al = final(store).alliances@[id as int];
            &&& r == Ok::<u64, AllianceError>(id as u64)
            &&& final(store).alliances@.len() == id + 1
            &&& final(store).alliances@.subrange(0, id as int) == old(store).alliances@
            &&& al.alliance_id == id
            &&& al.name@ == name@
            &&& al.founder == founder
            &&& al.created_at == now
            &&& al.members@ == seq![founder]
            &&& al.voting_threshold == MIN_VOTING_THRESHOLD
            &&& al.is_active
            &&& final(store).member_index@ == old(store).member_index@.insert(founder.id, id as u64)
            &&& final(store).treasuries@ == old(store).treasuries@.insert(id as u64, INITIAL_TREASURY)
            &&& final(store).contributions@ == old(store).contributions@.insert(
                contribution_key(id as u64, founder.id),
                0,
            )
        },
{
    if store.member_index.contains_key(&founder.id) {
        return Err(AllianceError::AlreadyInAlliance);
    }
    let empty = String::new();
    proof {
        if name@.len() == 0 {
            assert(name@ =~= empty@);
        }
    }
    if name == empty {
        return Err(AllianceError::InvalidName);
    }
    let ghost old_alliances = store.alliances@;
    let ghost old_index = store.member_index@;
    let alliance_id = store.alliances.len() as u64;
    let mut members: Vec<Address> = Vec::new();
    members.push(founder);
    let alliance = Alliance {
        alliance_id,
        name,
        founder,
        created_at: now,
        members,
        voting_threshold: MIN_VOTING_THRESHOLD,
        is_active: true,
    };
    store.alliances.push(alliance);
    store.member_index.insert(founder.id, alliance_id);
    store.treasuries.insert(alliance_id, INITIAL_TREASURY);
    let key = key_of(alliance_id, founder.id);
    store.contributions.insert(key, 0);
    proof {
        assert(store.alliances@.subrange(0, alliance_id as int) =~= old_alliances);
        let als = store.alliances@;
        let idx = store.member_index@;
        assert forall|p: u64| #[trigger] idx.contains_key(p) implies idx[p] < als.len()
            && als[idx[p] as int].members@.contains(Address { id: p }) by {
            if p == founder.id {
                assert(als[alliance_id as int].members@[0] == founder);
            } else {
                assert(old_index.contains_key(p));
                assert(als[idx[p] as int] == old_alliances[idx[p] as int]);
            }
        }
        assert forall|a: int, k: int| 0 <= a < als.len() && 0 <= k < als[a].members@.len()
            implies idx.contains_key(#[trigger] als[a].members@[k].id) && idx[als[a].members@[k].id] == a by {
            if a < old_alliances.len() {
                assert(als[a] == old_alliances[a]);
                assert(old_index.contains_key(old_alliances[a].members@[k].id));
                assert(old_alliances[a].members@[k].id != founder.id);
            }
        }
    }
    Ok(alliance_id)
}

/// Join alliance `alliance_id`, if the player belongs to none and it has
/// room.
pub fn join_alliance(store: &mut AllianceStore, alliance_id: u64, player: Address, now: u64) -> (r: Result<MembershipRecord, AllianceError>)
    requires
        old(store).wf(),
    ensures
        final(store).wf(),
        ({
            let als = old(store).alliances@;
            if old(store).member_index@.contains_key(player.id) {
                r == Err::<MembershipRecord, AllianceError>(AllianceError::AlreadyInAlliance)
            } else if alliance_id >= als.len() {
                r == Err::<MembershipRecord, AllianceError>(AllianceError::AllianceNotFound)
            } else if als[alliance_id as int].members@.len() >= MAX_MEMBERS_PER_ALLIANCE {
                r == Err::<MembershipRecord, AllianceError>(AllianceError::AllianceFull)
            } else {
                let al = final(store).alliances@[alliance_id as int];
                &&& r == Ok::<MembershipRecord, AllianceError>(
                    MembershipRecord { alliance_id, member: player, joined_at: now, contribution: 0 },
                )
                &&& final(store).alliances@.len() == als.len()
                &&& forall|a: int| 0 <= a < als.len() && a != alliance_id ==> #[trigger] final(store).alliances@[a] == als[a]
                &&& al.members@ == als[alliance_id as int].members@.push(player)
                &&& al.name == als[alliance_id as int].name
                &&& al.founder == als[alliance_id as int].founder
                &&& al.created_at == als[alliance_id as int].created_at
                &&& al.voting_threshold == als[alliance_id as int].voting_threshold
                &&& al.is_active == als[alliance_id as int].is_active
                &&& final(store).member_index@ == old(store).member_index@.insert(player.id, alliance_id)
                &&& final(store).contributions@ == old(store).contributions@.insert(
                    contribution_key(alliance_id, player.id),
                    0,
                )
            }
        }),
        r is Err ==> final(store).alliances@ == old(store).alliances@
            && final(store).member_index@ == old(store).member_index@
            && final(store).contributions@ == old(store).contributions@,
        final(store).treasuries@ == old(store).treasuries@,
{
    if store.member_index.contains_key(&player.id) {
        return Err(AllianceError::AlreadyInAlliance);
    }
    if alliance_id >= store.alliances.len() as u64 {
        return Err(AllianceError::AllianceNotFound);
    }
    let i = alliance_id as usize;
    if store.alliances[i].members.len() >= MAX_MEMBERS_PER_ALLIANCE as usize {
        return Err(AllianceError::AllianceFull);
    }
    let ghost old_alliances = store.alliances@;
    let ghost old_index = store.member_index@;
    store.alliances[i].members.push(player);
    store.member_index.insert(player.id, alliance_id);
    let key = key_of(alliance_id, player.id);
    store.contributions.insert(key, 0);
    proof {
        let als = store.alliances@;
        let idx = store.member_index@;
        assert forall|p: u64| #[trigger] idx.contains_key(p) implies idx[p] < als.len()
            && als[idx[p] as int].members@.contains(Address { id: p }) by {
            if p == player.id {
                assert(als[i as int].members@[als[i as int].members@.len() - 1] == player);
            } else {
                assert(old_index.contains_key(p));
                let a = idx[p] as int;
                let w = choose|k: int| 0 <= k < old_alliances[a].members@.len()
                    && old_alliances[a].members@[k] == Address { id: p };
                assert(als[a].members@[w] == Address { id: p });
            }
        }
        assert forall|a: int, k: int| 0 <= a < als.len() && 0 <= k < als[a].members@.len()
            implies idx.contains_key(#[trigger] als[a].members@[k].id) && idx[als[a].members@[k].id] == a by {
            if a == i && k == als[a].members@.len() - 1 {
            } else {
                assert(als[a].members@[k] == old_alliances[a].members@[k]);
                assert(old_index.contains_key(old_alliances[a].members@[k].id));
            }
        }
    }
    Ok(MembershipRecord { alliance_id, member: player, joined_at: now, contribution: 0 })
}

/// Leave the player's alliance; its contributions stay on record.
pub fn leave_alliance(store: &mut AllianceStore, player: Address) -> (r: Result<(), AllianceError>)
    requires
        old(store).wf(),
    ensures
        final(store).wf(),
        !old(store).member_index@.contains_key(player.id) ==> r == Err::<(), AllianceError>(AllianceError::NotMember)
            && final(store).alliances@ == old(store).alliances@
            && final(store).member_index@ == old(store).member_index@,
        old(store).member_index@.contains_key(player.id) ==> {
            let a = old(store).member_index@[player.id] as int;
            let als = old(store).alliances@;
            &&& r == Ok::<(), AllianceError>(())
            &&& final(store).alliances@.len() == als.len()
            &&& forall|b: int| 0 <= b < als.len() && b != a ==> #[trigger] final(store).alliances@[b] == als[b]
            &&& final(store).alliances@[a].members@ == without(als[a].members@, player)
            &&& final(store).alliances@[a].name == als[a].name
            &&& final(store).alliances@[a].founder == als[a].founder
            &&& final(store).alliances@[a].is_active == als[a].is_active
            &&& final(store).member_index@ == old(store).member_index@.remove(player.id)
        },
        final(store).treasuries@ == old(store).treasuries@,
        final(store).contributions@ == old(store).contributions@,
{
    let alliance_id = match store.member_index.get(&player.id) {
        Some(a) => *a,
        None => return Err(AllianceError::NotMember),
    };
    if alliance_id >= store.alliances.len() as u64 {
        return Err(AllianceError::AllianceNotFound);
    }
    let i = alliance_id as usize;
    let ghost old_alliances = store.alliances@;
    let ghost old_index = store.member_index@;
    let mut kept: Vec<Address> = Vec::new();
    let mut j: usize = 0;
    while j < store.alliances[i].members.len()
        invariant
            0 <= j <= old_alliances[i as int].members@.len(),
            i < old_alliances.len(),
            store.alliances@ == old_alliances,
            kept@ == without(old_alliances[i as int].members@.subrange(0, j as int), player),
        decreases old_alliances[i as int].members@.len() - j,
    {
        let m = store.alliances[i].members[j];
        proof {
            let ms = old_alliances[i as int].members@;
            assert(ms.subrange(0, j + 1).drop_last() =~= ms.subrange(0, j as int));
        }
        if m != player {
            kept.push(m);
        }
        j += 1;
    }
    proof {
        let ms = old_alliances[i as int].members@;
        assert(ms.subrange(0, ms.len() as int) =~= ms);
        lemma_without_contains(ms, player);
        lemma_without_len(ms, player);
    }
    store.alliances[i].members = kept;
    store.member_index.remove(&player.id);
    proof {
        let als = store.alliances@;
        let idx = store.member_index@;
        let ms = old_alliances[i as int].members@;
        assert forall|p: u64| #[trigger] idx.contains_key(p) implies idx[p] < als.len()
            && als[idx[p] as int].members@.contains(Address { id: p }) by {
            assert(old_index.contains_key(p));
            let a = idx[p] as int;
            assert(old_alliances[a].members@.contains(Address { id: p }));
            if a == i {
                assert(Address { id: p } != player);
                assert(without(ms, player).contains(Address { id: p }));
            } else {
                assert(als[a] == old_alliances[a]);
            }
        }
        assert forall|a: int, k: int| 0 <= a < als.len() && 0 <= k < als[a].members@.len()
            implies idx.contains_key(#[trigger] als[a].members@[k].id) && idx[als[a].members@[k].id] == a by {
            if a == i {
                let x = als[a].members@[k];
                assert(without(ms, player).contains(x));
                let w = choose|q: int| 0 <= q < ms.len() && ms[q] == x;
                assert(old_index.contains_key(ms[w].id));
            } else {
                assert(als[a] == old_alliances[a]);
                assert(old_index.contains_key(old_alliances[a].members@[k].id));
                assert(old_alliances[a].members@[k].id != player.id);
            }
        }
        lemma_without_no_duplicates(ms, player);
        assert forall|a: int| 0 <= a < als.len() implies (#[trigger] als[a]).alliance_id == a
            && als[a].members@.len() <= MAX_MEMBERS_PER_ALLIANCE && als[a].members@.no_duplicates() by {
            if a != i {
                assert(als[a] == old_alliances[a]);
            }
        }
    }
    Ok(())
}

/// Contribute `amount` to the treasury of the player's alliance; both the
/// treasury and the player's contribution saturate at the largest `i128`.
/// Returns the new treasury.
pub fn contribute_to_treasury(store: &mut AllianceStore, player: Address, amount: i128) -> (r: Result<i128, AllianceError>)
    ensures
        amount <= 0 ==> r == Err::<i128, AllianceError>(AllianceError::Unauthorized),
        amount > 0 && !old(store).member_index@.contains_key(player.id) ==> r == Err::<i128, AllianceError>(AllianceError::NotMember),
        r is Err ==> final(store).treasuries@ == old(store).treasuries@
            && final(store).contributions@ == old(store).contributions@,
        amount > 0 && old(store).member_index@.contains_key(player.id) ==> {
            let a = old(store).member_index@[player.id];
            let key = contribution_key(a, player.id);
            let t = sat_add(amount_or_zero(old(store).treasuries@, a), amount);
            &&& r == Ok::<i128, AllianceError>(t)
            &&& final(store).treasuries@ == old(store).treasuries@.insert(a, t)
            &&& final(store).contributions@ == old(store).contributions@.insert(
                key,
                sat_add(amount_or_zero(old(store).contributions@, key), amount),
            )
        },
        final(store).alliances@ == old(store).alliances@,
        final(store).member_index@ == old(store).member_index@,
{
    if amount <= 0 {
        return Err(AllianceError::Unauthorized);
    }
    let alliance_id = match store.member_index.get(&player.id) {
        Some(a) => *a,
        None => return Err(AllianceError::NotMember),
    };
    let current_treasury = match store.treasuries.get(&alliance_id) {
        Some(t) => *t,
        None => INITIAL_TREASURY,
    };
    let new_treasury = saturating_add_i128(current_treasury, amount);
    store.treasuries.insert(alliance_id, new_treasury);
    let key = key_of(alliance_id, player.id);
    let current_contribution = match store.contributions.get(&key) {
        Some(c) => *c,
        None => 0,
    };
    let new_contribution = saturating_add_i128(current_contribution, amount);
    store.contributions.insert(key, new_contribution);
    Ok(new_treasury)
}

/// An alliance by id.
pub fn get_alliance(store: &AllianceStore, alliance_id: u64) -> (r: Result<&Alliance, AllianceError>)
    ensures
        alliance_id < store.alliances@.len() ==> r is Ok && *r->Ok_0 == store.alliances@[alliance_id as int],
        alliance_id >= store.alliances@.len() ==> r == Err::<&Alliance, AllianceError>(AllianceError::AllianceNotFound),
{
    if alliance_id < store.alliances.len() as u64 {
        Ok(&store.alliances[alliance_id as usize])
    } else {
        Err(AllianceError::AllianceNotFound)
    }
}

/// An alliance's treasury (zero for an unknown alliance).
pub fn get_alliance_treasury(store: &AllianceStore, alliance_id: u64) -> (r: i128)
    ensures
        r == amount_or_zero(store.treasuries@, alliance_id),
{
    match store.treasuries.get(&alliance_id) {
        Some(t) => *t,
        None => INITIAL_TREASURY,
    }
}

/// What a member contributed to an alliance (zero when nothing is recorded).
pub fn get_member_contribution(store: &AllianceStore, alliance_id: u64, member: Address) -> (r: i128)
    ensures
        r == amount_or_zero(store.contributions@, contribution_key(alliance_id, member.id)),
{
    let key = key_of(alliance_id, member.id);
    match store.contributions.get(&key) {
        Some(c) => *c,
        None => 0,
    }
}

/// The alliance a player belongs to.
pub fn get_player_alliance(store: &AllianceStore, player: Address) -> (r: Option<u64>)
    ensures
        r == (if store.member_index@.contains_key(player.id) {
            Some(store.member_index@[player.id])
        } else {
            None::<u64>
        }),
{
    match store.member_index.get(&player.id) {
        Some(a) => Some(*a),
        None => None,
    }
}

/// An element is kept by `without` exactly when it is not the removed one.
pub proof fn lemma_without_contains(s: Seq<Address>, p: Address)
    ensures
        forall|x: Address| #[trigger] without(s, p).contains(x) <==> (s.contains(x) && x != p),
    decreases s.len(),
{
    if s.len() > 0 {
        lemma_without_contains(s.drop_last(), p);
        let w = without(s.drop_last(), p);
        assert forall|x: Address| #[trigger] without(s, p).contains(x) <==> (s.contains(x) && x != p) by {
            if s.contains(x) && x != p {
                let q = choose|q: int| 0 <= q < s.len() && s[q] == x;
                if q < s.len() - 1 {
                    assert(s.drop_last()[q] == x);
                    assert(s.drop_last().contains(x));
                    assert(w.contains(x));
                    let r = choose|r: int| 0 <= r < w.len() && w[r] == x;
                    if s.last() != p {
                        assert(w.push(s.last())[r] == x);
                    }
                } else {
                    assert(w.push(s.last())[w.len() as int] == x);
                }
            }
            if without(s, p).contains(x) {
                let r = choose|r: int| 0 <= r < without(s, p).len() && without(s, p)[r] == x;
                if s.last() != p && r == w.len() {
                    assert(x == s.last());
                    assert(s[s.len() - 1] == x);
                } else {
                    if s.last() != p {
                        assert(w.push(s.last())[r] == w[r]);
                    }
                    assert(w.contains(x));
                    let q = choose|q: int| 0 <= q < s.drop_last().len() && s.drop_last()[q] == x;
                    assert(s[q] == x);
                }
            }
        }
    }
}

/// Removing a player never lengthens a member list.
pub proof fn lemma_without_len(s: Seq<Address>, p: Address)
    ensures
        without(s, p).len() <= s.len(),
    decreases s.len(),
{
    if s.len() > 0 {
        lemma_without_len(s.drop_last(), p);
    }
}

/// Law of alliances: when the store is well formed, a player indexed under
/// an alliance is listed by it and by no other alliance.
pub proof fn lemma_single_membership(store: &AllianceStore, p: u64, b: int)
    requires
        store.wf(),
        store.member_index@.contains_key(p),
        0 <= b < store.alliances@.len(),
        b != store.member_index@[p],
    ensures
        store.alliances@[store.member_index@[p] as int].members@.contains(Address { id: p }),
        !store.alliances@[b].members@.contains(Address { id: p }),
{
    if store.alliances@[b].members@.contains(Address { id: p }) {
        let k = choose|k: int| 0 <= k < store.alliances@[b].members@.len()
            && store.alliances@[b].members@[k] == Address { id: p };
        assert(store.member_index@[store.alliances@[b].members@[k].id] == b);
    }
}

/// Removing a player from a list without repeats leaves a list without repeats.
pub proof fn lemma_without_no_duplicates(s: Seq<Address>, p: Address)
    requires
        s.no_duplicates(),
    ensures
        without(s, p).no_duplicates(),
    decreases s.len(),
{
    if s.len() > 0 {
        let d = s.drop_last();
        assert(d.no_duplicates()) by {
            assert forall|a: int, b: int| 0 <= a < d.len() && 0 <= b < d.len() && a != b implies d[a] != d[b] by {
                assert(s[a] != s[b]);
            }
        }
        lemma_without_no_duplicates(d, p);
        lemma_without_contains(d, p);
        let w = without(d, p);
        if s.last() != p {
            assert(!d.contains(s.last())) by {
                if d.contains(s.last()) {
                    let q = choose|q: int| 0 <= q < d.len() && d[q] == s.last();
                    assert(s[q] != s[s.len() - 1]);
                }
            }
            assert(!w.contains(s.last()));
            assert forall|a: int, b: int| 0 <= a < w.push(s.last()).len() && 0 <= b < w.push(s.last()).len() && a != b
                implies w.push(s.last())[a] != w.push(s.last())[b] by {
                if a < w.len() && b < w.len() {
                    assert(w[a] != w[b]);
                } else if a < w.len() {
                    assert(w.contains(w[a]));
                } else {
                    assert(w.contains(w[b]));
                }
            }
        }
    }
}

} // verus!
