use vstd::prelude::*;
use crate::types::{Address, bytes32_eq, copy_vec};

verus! {

/// Minimum number of stars required to form a valid constellation.
pub const MIN_STARS: u32 = 3;
/// Maximum patterns matched per call, and the number of most recent
/// constellations a match searches.
pub const MAX_MATCH_BURST: u32 = 15;

/// Errors of the constellation mapper.
#[derive(Clone, Copy, Debug, PartialEq, Eq, Structural)]
pub enum ConstellationError {
    /// No known constellation matched the observed pattern.
    NoMatchFound,
    /// Star vector is below the minimum count.
    TooFewStars,
    /// Attempted to mutate an immutable historical record.
    ImmutableRecord,
    /// Requested burst size exceeds MAX_MATCH_BURST.
    BurstTooLarge,
}

/// A recorded constellation: an ordered list of star hashes.
#[derive(Debug)]
pub struct Constellation {
    pub id: u64,
    pub recorder: Address,
    /// Ordered list of star hashes (coordinate + spectral fingerprint).
    pub stars: Vec<[u8; 32]>,
    pub recorded_at: u64,
    pub star_count: u32,
}

/// The best match of an observed pattern.
#[derive(Clone, Copy, Debug, PartialEq, Eq, Structural)]
pub struct MatchResult {
    pub constellation_id: u64,
    /// Number of observed stars found in the constellation.
    pub matched_stars: u32,
    pub total_stars: u32,
}

/// Recorded constellations; the one with id `i` is at position `i`.
pub struct ConstellationStore {
    constellations: Vec<Constellation>,
}

/// Number of stars of `observed` (counted with repetition) that occur in `known`.
pub open spec fn match_count(observed: Seq<[u8; 32]>, known: Seq<[u8; 32]>) -> int
    decreases observed.len(),
{
    if observed.len() == 0 {
        0
    } else {
        match_count(observed.drop_last(), known) + if known.contains(observed.last()) {
            1int
        } else {
            0int
        }
    }
}

/// Best candidate among the constellations with ids `lo..hi`: id, number of
/// matched stars and star count of the first one with the most matches
/// (`(0, 0, 0)` when none matches a star).
pub open spec fn best_match(cs: Seq<Constellation>, observed: Seq<[u8; 32]>, lo: int, hi: int) -> (u64, int, u32)
    decreases hi - lo,
{
    if hi <= lo {
        (0, 0, 0)
    } else {
        let prev = best_match(cs, observed, lo, hi - 1);
        let m = match_count(observed, cs[hi - 1].stars@);
        if m > prev.1 {
            ((hi - 1) as u64, m, cs[hi - 1].star_count)
        } else {
            prev
        }
    }
}

/// First id searched by a match among `total` constellations.
pub open spec fn search_start(total: int) -> int {
    if total > MAX_MATCH_BURST {
        total - MAX_MATCH_BURST
    } else {
        0
    }
}

/// What `match_constellation` answers for `observed`.
pub open spec fn match_outcome(cs: Seq<Constellation>, observed: Seq<[u8; 32]>) -> Result<MatchResult, ConstellationError> {
    if observed.len() < MIN_STARS {
        Err(ConstellationError::TooFewStars)
    } else {
        let best = best_match(cs, observed, search_start(cs.len() as int), cs.len() as int);
        if best.1 == 0 {
            Err(ConstellationError::NoMatchFound)
        } else {
            Ok(MatchResult { constellation_id: best.0, matched_stars: best.1 as u32, total_stars: best.2 })
        }
    }
}

/// The matches found for each pattern, in order, skipping those without one.
pub open spec fn batch_matches(cs: Seq<Constellation>, patterns: Seq<Vec<[u8; 32]>>) -> Seq<MatchResult>
    decreases patterns.len(),
{
    if patterns.len() == 0 {
        Seq::empty()
    } else {
        let prev = batch_matches(cs, patterns.drop_last());
        match match_outcome(cs, patterns.last()@) {
            Ok(m) => prev.push(m),
            Err(_) => prev,
        }
    }
}

impl ConstellationStore {
    #[verifier::type_invariant]
    spec fn wf(&self) -> bool {
        forall|i: int| 0 <= i < self.constellations@.len() ==> {
            &&& #[trigger] self.constellations@[i].id == i
            &&& self.constellations@[i].star_count == self.constellations@[i].stars@.len()
        }
    }

    /// The recorded constellations, by id.
    pub closed spec fn constellations(&self) -> Seq<Constellation> {
        self.constellations@
    }

    /// A store without constellations.
    pub fn new() -> (s: ConstellationStore)
        ensures
            s.constellations() == Seq::<Constellation>::empty(),
    {
        ConstellationStore { constellations: Vec::new() }
    }
}

/// Count how many elements of `observed` appear in `known`.
pub fn count_matching_stars(observed: &Vec<[u8; 32]>, known: &Vec<[u8; 32]>) -> (r: u32)
    requires
        observed@.len() <= u32::MAX,
    ensures
        r == match_count(observed@, known@),
{
    let mut count: u32 = 0;
    let mut i: usize = 0;
    while i < observed.len()
        invariant
            0 <= i <= observed@.len(),
            observed@.len() <= u32::MAX,
            count == match_count(observed@.subrange(0, i as int), known@),
            count <= i,
        decreases observed@.len() - i,
    {
        let obs = &observed[i];
        let mut j: usize = 0;
        let mut hit = false;
        while j < known.len() && !hit
            invariant
                0 <= j <= known@.len(),
                0 <= i < observed@.len(),
                obs == observed@[i as int],
                !hit ==> forall|k: int| 0 <= k < j ==> known@[k] != *obs,
                hit ==> known@.contains(*obs),
            decreases known@.len() - j,
        {
            if bytes32_eq(obs, &known[j]) {
                hit = true;
            }
            j += 1;
        }
        proof {
            let pre = observed@.subrange(0, i + 1);
            assert(pre.drop_last() =~= observed@.subrange(0, i as int));
            assert(pre.last() == *obs);
            if !hit {
                assert(!known@.contains(*obs));
            }
        }
        if hit {
            count += 1;
        }
        i += 1;
    }
    proof {
        assert(observed@.subrange(0, observed@.len() as int) =~= observed@);
    }
    count
}

/// Record a new constellation pattern; records are never changed afterwards.
/// Returns the assigned id.
pub fn record_constellation(store: &mut ConstellationStore, recorder: &Address, stars: &Vec<[u8; 32]>, now: u64) -> (r: Result<u64, ConstellationError>)
    requires
        stars@.len() <= u32::MAX,
    ensures
        stars@.len() < MIN_STARS ==> r == Err::<u64, ConstellationError>(ConstellationError::TooFewStars)
            && final(store).constellations() == old(store).constellations(),
        stars@.len() >= MIN_STARS ==> {
            let id = old(store).constellations().len();
            let c = final(store).constellations()[id as int];
            &&& r == Ok::<u64, ConstellationError>(id as u64)
            &&& final(store).constellations().len() == id + 1
            &&& final(store).constellations().subrange(0, id as int) == old(store).constellations()
            &&& c.id == id
            &&& c.recorder == *recorder
            &&& c.stars@ == stars@
            &&& c.recorded_at == now
            &&& c.star_count == stars@.len()
        },
{
    proof { use_type_invariant(&*store); }
    if stars.len() < MIN_STARS as usize {
        return Err(ConstellationError::TooFewStars);
    }
    let id = store.constellations.len() as u64;
    let c = Constellation {
        id,
        recorder: *recorder,
        stars: copy_vec(stars),
        recorded_at: now,
        star_count: stars.len() as u32,
    };
    let mut cs: Vec<Constellation> = Vec::new();
    std::mem::swap(&mut cs, &mut store.constellations);
    let ghost before = cs@;
    cs.push(c);
    proof {
        assert(cs@.subrange(0, id as int) =~= before);
    }
    store.constellations = cs;
    Ok(id)
}

/// Find, among the most recent constellations, the one with the highest
/// star overlap with `observed` (the earliest on a tie).
pub fn match_constellation(store: &ConstellationStore, observed: &Vec<[u8; 32]>) -> (r: Result<MatchResult, ConstellationError>)
    requires
        observed@.len() <= u32::MAX,
    ensures
        r == match_outcome(store.constellations(), observed@),
{
    proof { use_type_invariant(store); }
    if observed.len() < MIN_STARS as usize {
        return Err(ConstellationError::TooFewStars);
    }
    let total = store.constellations.len();
    let search_from: usize = if total > MAX_MATCH_BURST as usize { total - MAX_MATCH_BURST as usize } else { 0 };
    let mut best_id: u64 = 0;
    let mut best_matches: u32 = 0;
    let mut best_total: u32 = 0;
    let mut id = search_from;
    while id < total
        invariant
            search_from <= id <= total,
            total == store.constellations@.len(),
            search_from == search_start(total as int),
            observed@.len() <= u32::MAX,
            ({
                let b = best_match(store.constellations@, observed@, search_from as int, id as int);
                &&& best_id == b.0
                &&& best_matches == b.1
                &&& best_total == b.2
            }),
            best_matches <= observed@.len(),
        decreases total - id,
    {
        let c = &store.constellations[id];
        let matched = count_matching_stars(observed, &c.stars);
        proof {
            lemma_match_count_bound(observed@, c.stars@);
        }
        if matched > best_matches {
            best_matches = matched;
            best_id = id as u64;
            best_total = c.star_count;
        }
        id += 1;
    }
    if best_matches == 0 {
        return Err(ConstellationError::NoMatchFound);
    }
    Ok(MatchResult { constellation_id: best_id, matched_stars: best_matches, total_stars: best_total })
}

/// Match several observed patterns in one call; patterns without a match are
/// left out of the result.
pub fn match_constellations_batch(store: &ConstellationStore, patterns: &Vec<Vec<[u8; 32]>>) -> (r: Result<Vec<MatchResult>, ConstellationError>)
    requires
        forall|i: int| 0 <= i < patterns@.len() ==> (#[trigger] patterns@[i])@.len() <= u32::MAX,
    ensures
        patterns@.len() > MAX_MATCH_BURST ==> r == Err::<Vec<MatchResult>, ConstellationError>(ConstellationError::BurstTooLarge),
        patterns@.len() <= MAX_MATCH_BURST ==> r is Ok && r->Ok_0@ == batch_matches(store.constellations(), patterns@),
{
    if patterns.len() > MAX_MATCH_BURST as usize {
        return Err(ConstellationError::BurstTooLarge);
    }
    let mut results: Vec<MatchResult> = Vec::new();
    let mut i: usize = 0;
    while i < patterns.len()
        invariant
            0 <= i <= patterns@.len(),
            forall|k: int| 0 <= k < patterns@.len() ==> (#[trigger] patterns@[k])@.len() <= u32::MAX,
            results@ == batch_matches(store.constellations(), patterns@.subrange(0, i as int)),
        decreases patterns@.len() - i,
    {
        proof {
            assert(patterns@.subrange(0, i + 1).drop_last() =~= patterns@.subrange(0, i as int));
        }
        match match_constellation(store, &patterns[i]) {
            Ok(m) => results.push(m),
            Err(_) => {},
        }
        i += 1;
    }
    proof {
        assert(patterns@.subrange(0, patterns@.len() as int) =~= patterns@);
    }
    Ok(results)
}

/// A stored constellation by id.
pub fn get_constellation(store: &ConstellationStore, constellation_id: u64) -> (r: Result<&Constellation, ConstellationError>)
    ensures
        constellation_id < store.constellations().len() ==> r is Ok
            && *r->Ok_0 == store.constellations()[constellation_id as int],
        constellation_id >= store.constellations().len() ==> r == Err::<&Constellation, ConstellationError>(ConstellationError::NoMatchFound),
{
    if (constellation_id as usize) < store.constellations.len() && constellation_id < store.constellations.len() as u64 {
        Ok(&store.constellations[constellation_id as usize])
    } else {
        Err(ConstellationError::NoMatchFound)
    }
}

/// Number of recorded constellations.
pub fn get_constellation_count(store: &ConstellationStore) -> (r: u64)
    ensures
        r == store.constellations().len(),
{
    store.constellations.len() as u64
}

/// No more stars match than were observed.
proof fn lemma_match_count_bound(observed: Seq<[u8; 32]>, known: Seq<[u8; 32]>)
    ensures
        0 <= match_count(observed, known) <= observed.len(),
    decreases observed.len(),
{
    if observed.len() > 0 {
        lemma_match_count_bound(observed.drop_last(), known);
    }
}

/// Law of matching: the chosen constellation lies in the searched window
/// and no constellation there shares more stars with the pattern.
pub proof fn lemma_best_match_is_maximal(cs: Seq<Constellation>, observed: Seq<[u8; 32]>, lo: int, hi: int)
    requires
        0 <= lo <= hi <= cs.len(),
        hi <= u64::MAX,
    ensures
        forall|i: int| lo <= i < hi ==> #[trigger] match_count(observed, cs[i].stars@) <= best_match(cs, observed, lo, hi).1,
        best_match(cs, observed, lo, hi).1 > 0 ==> {
            let b = best_match(cs, observed, lo, hi);
            &&& lo <= b.0 < hi
            &&& b.1 == match_count(observed, cs[b.0 as int].stars@)
            &&& b.2 == cs[b.0 as int].star_count
        },
        best_match(cs, observed, lo, hi).1 >= 0,
    decreases hi - lo,
{
    if hi > lo {
        lemma_best_match_is_maximal(cs, observed, lo, hi - 1);
        lemma_match_count_bound(observed, cs[hi - 1].stars@);
    }
}

/// Law of matching: a match searches every recorded constellation when at
/// most `MAX_MATCH_BURST` are recorded, and exactly the `MAX_MATCH_BURST` most
/// recent otherwise. Any of those that shares a star with a long enough
/// pattern makes the match succeed, with at least as many shared stars; and a
/// match found is one of those constellations, sharing the reported number
/// of stars, with no searched constellation sharing more.
pub proof fn lemma_match_searches_recent(cs: Seq<Constellation>, observed: Seq<[u8; 32]>, i: int)
    requires
        cs.len() <= u64::MAX,
        MIN_STARS <= observed.len() <= u32::MAX,
    ensures
        ({
            let lo = if cs.len() > MAX_MATCH_BURST { cs.len() - MAX_MATCH_BURST } else { 0 };
            &&& (lo <= i < cs.len() && match_count(observed, cs[i].stars@) > 0) ==> {
                &&& match_outcome(cs, observed) is Ok
                &&& match_outcome(cs, observed)->Ok_0.matched_stars >= match_count(observed, cs[i].stars@)
            }
            &&& match_outcome(cs, observed) is Ok ==> {
                let m = match_outcome(cs, observed)->Ok_0;
                &&& lo <= m.constellation_id < cs.len()
                &&& m.matched_stars == match_count(observed, cs[m.constellation_id as int].stars@)
                &&& m.total_stars == cs[m.constellation_id as int].star_count
                &&& (lo <= i < cs.len() ==> match_count(observed, cs[i].stars@) <= m.matched_stars)
            }
        }),
{
    let lo = if cs.len() > MAX_MATCH_BURST { cs.len() - MAX_MATCH_BURST } else { 0 };
    assert(search_start(cs.len() as int) == lo);
    lemma_best_match_is_maximal(cs, observed, lo, cs.len() as int);
    let b = best_match(cs, observed, lo, cs.len() as int);
    if lo <= i < cs.len() {
        assert(match_count(observed, cs[i].stars@) <= b.1);
    }
    if b.1 > 0 {
        assert(b.1 <= observed.len()) by {
            lemma_match_count_bound(observed, cs[b.0 as int].stars@);
        }
    }
}

} // verus!
