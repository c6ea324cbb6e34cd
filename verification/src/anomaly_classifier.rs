use vstd::prelude::*;
use std::collections::HashMap;

verus! {

broadcast use vstd::std_specs::hash::group_hash_axioms;

/// The classification of an anomaly.
#[derive(Debug)]
pub struct ClassificationRecord {
    pub anomaly_id: u64,
    pub anomaly_type: String,
    pub confidence: u32,
    pub last_updated: u64,
    pub scan_count: u32,
}

impl Clone for ClassificationRecord {
    fn clone(&self) -> (r: ClassificationRecord)
        ensures
            r == *self,
    {
        ClassificationRecord {
            anomaly_id: self.anomaly_id,
            anomaly_type: self.anomaly_type.clone(),
            confidence: self.confidence,
            last_updated: self.last_updated,
            scan_count: self.scan_count,
        }
    }
}

/// Errors of anomaly classification.
#[derive(Clone, Copy, Debug, PartialEq, Eq, Structural)]
pub enum AnomalyError {
    InsufficientFeatures,
    NotFound,
    Unauthorized,
}

/// Classifications by anomaly id.
pub struct AnomalyStore {
    pub records: HashMap<u64, ClassificationRecord>,
}

/// A classification as plain values: id, type name, confidence, time, scans.
pub type RecordView = (u64, Seq<char>, u32, u64, u32);

/// The plain values of a classification.
pub open spec fn record_view(r: ClassificationRecord) -> RecordView {
    (r.anomaly_id, r.anomaly_type@, r.confidence, r.last_updated, r.scan_count)
}

/// The classifications as plain values.
pub open spec fn records_view(m: Map<u64, ClassificationRecord>) -> Map<u64, RecordView> {
    m.map_values(|r: ClassificationRecord| record_view(r))
}

/// Sum of the features, saturating at the largest `u32`.
pub open spec fn feature_score(fs: Seq<u32>) -> int
    decreases fs.len(),
{
    if fs.len() == 0 {
        0
    } else {
        let s = feature_score(fs.drop_last()) + fs.last();
        if s > u32::MAX {
            u32::MAX as int
        } else {
            s
        }
    }
}

/// Type of a first classification by score.
pub open spec fn type_by_score(score: int) -> Seq<char> {
    if score > 200 {
        "blackhole"@
    } else if score > 120 {
        "wormhole"@
    } else {
        "nebula"@
    }
}

/// Type of a refined classification by confidence.
pub open spec fn type_by_confidence(confidence: int) -> Seq<char> {
    if confidence > 80 {
        "wormhole"@
    } else if confidence > 50 {
        "nebula"@
    } else {
        "anomaly"@
    }
}

/// `a` capped at 100.
pub open spec fn cap100(a: int) -> int {
    if a < 100 {
        a
    } else {
        100
    }
}

/// A first classification of `features` at `now`.
pub open spec fn classified(anomaly_id: u64, features: Seq<u32>, now: u64) -> RecordView {
    let score = feature_score(features);
    (anomaly_id, type_by_score(score), cap100(score / 3) as u32, now, 1u32)
}

/// A classification refined by `new_data` at `now`.
pub open spec fn refined(e: RecordView, new_data: Seq<u32>, now: u64) -> RecordView {
    let base = e.2 * e.4 + feature_score(new_data);
    let score = if base > u32::MAX { u32::MAX as int } else { base };
    let scans = if e.4 < u32::MAX { e.4 + 1 } else { e.4 as int };
    let confidence = cap100(score / scans);
    (e.0, type_by_confidence(confidence), confidence as u32, now, scans as u32)
}

/// The classifications after a batch: each entry with at least three
/// features is classified, in order.
pub open spec fn classified_batch(m: Map<u64, RecordView>, entries: Seq<(u64, Vec<u32>)>, now: u64) -> Map<u64, RecordView>
    decreases entries.len(),
{
    if entries.len() == 0 {
        m
    } else {
        let prev = classified_batch(m, entries.drop_last(), now);
        let e = entries.last();
        if e.1@.len() < 3 {
            prev
        } else {
            prev.insert(e.0, classified(e.0, e.1@, now))
        }
    }
}

/// The classifications a batch returns, in order.
pub open spec fn batch_results(entries: Seq<(u64, Vec<u32>)>, now: u64) -> Seq<RecordView>
    decreases entries.len(),
{
    if entries.len() == 0 {
        Seq::empty()
    } else {
        let prev = batch_results(entries.drop_last(), now);
        let e = entries.last();
        if e.1@.len() < 3 {
            prev
        } else {
            prev.push(classified(e.0, e.1@, now))
        }
    }
}

impl AnomalyStore {
    /// A store without classifications.
    pub fn new() -> (s: AnomalyStore)
        ensures
            s.records@ == Map::<u64, ClassificationRecord>::empty(),
    {
        AnomalyStore { records: HashMap::new() }
    }
}

/// Saturating sum of the features.
fn score_of(features: &Vec<u32>) -> (r: u32)
    ensures
        r == feature_score(features@),
{
    let mut score: u32 = 0;
    let mut i: usize = 0;
    while i < features.len()
        invariant
            0 <= i <= features@.len(),
            score == feature_score(features@.subrange(0, i as int)),
        decreases features@.len() - i,
    {
        proof {
            assert(features@.subrange(0, i + 1).drop_last() =~= features@.subrange(0, i as int));
        }
        score = score.saturating_add(features[i]);
        i += 1;
    }
    proof {
        assert(features@.subrange(0, features@.len() as int) =~= features@);
    }
    score
}

/// Classify an anomaly from at least three features at `now`.
pub fn classify_anomaly(store: &mut AnomalyStore, anomaly_id: u64, features: &Vec<u32>, now: u64) -> (r: Result<ClassificationRecord, AnomalyError>)
    ensures
        features@.len() < 3 ==> r == Err::<ClassificationRecord, AnomalyError>(AnomalyError::InsufficientFeatures)
            && final(store).records@ == old(store).records@,
        features@.len() >= 3 ==> r is Ok
            && record_view(r->Ok_0) == classified(anomaly_id, features@, now)
            && final(store).records@ == old(store).records@.insert(anomaly_id, r->Ok_0),
{
    if features.len() < 3 {
        return Err(AnomalyError::InsufficientFeatures);
    }
    let score = score_of(features);
    let anomaly_type = if score > 200 {
        String::from_str("blackhole")
    } else if score > 120 {
        String::from_str("wormhole")
    } else {
        String::from_str("nebula")
    };
    let third = score / 3;
    let confidence = if third < 100 { third } else { 100 };
    let record = ClassificationRecord { anomaly_id, anomaly_type, confidence, last_updated: now, scan_count: 1 };
    store.records.insert(anomaly_id, record.clone());
    Ok(record)
}

/// Classify several anomalies; those with too few features are skipped.
pub fn classify_batch(store: &mut AnomalyStore, records: &Vec<(u64, Vec<u32>)>, now: u64) -> (r: Vec<ClassificationRecord>)
    ensures
        r@.map_values(|x: ClassificationRecord| record_view(x)) == batch_results(records@, now),
        records_view(final(store).records@) == classified_batch(records_view(old(store).records@), records@, now),
{
    let mut out: Vec<ClassificationRecord> = Vec::new();
    let mut i: usize = 0;
    while i < records.len()
        invariant
            0 <= i <= records@.len(),
            out@.map_values(|x: ClassificationRecord| record_view(x)) == batch_results(records@.subrange(0, i as int), now),
            records_view(store.records@) == classified_batch(records_view(old(store).records@), records@.subrange(0, i as int), now),
        decreases records@.len() - i,
    {
        proof {
            assert(records@.subrange(0, i + 1).drop_last() =~= records@.subrange(0, i as int));
        }
        let ghost before_out = out@;
        let ghost before_map = store.records@;
        let (id, features) = &records[i];
        match classify_anomaly(store, *id, features, now) {
            Ok(c) => {
                out.push(c);
                proof {
                    assert(out@.map_values(|x: ClassificationRecord| record_view(x)) =~= before_out.map_values(
                        |x: ClassificationRecord| record_view(x),
                    ).push(classified(*id, features@, now)));
                    assert(records_view(store.records@) =~= records_view(before_map).insert(*id, classified(*id, features@, now)));
                }
            },
            Err(_) => {},
        }
        i += 1;
    }
    proof {
        assert(records@.subrange(0, records@.len() as int) =~= records@);
    }
    out
}

/// Refine a classification with new data at `now`: the confidence becomes
/// the average score over all scans, capped at 100.
pub fn refine_classification(store: &mut AnomalyStore, anomaly_id: u64, new_data: &Vec<u32>, now: u64) -> (r: Result<ClassificationRecord, AnomalyError>)
    requires
        old(store).records@.contains_key(anomaly_id) ==> old(store).records@[anomaly_id].confidence
            * old(store).records@[anomaly_id].scan_count <= u32::MAX,
    ensures
        !old(store).records@.contains_key(anomaly_id) ==> r == Err::<ClassificationRecord, AnomalyError>(AnomalyError::NotFound),
        old(store).records@.contains_key(anomaly_id) && new_data@.len() < 1
            ==> r == Err::<ClassificationRecord, AnomalyError>(AnomalyError::InsufficientFeatures),
        r is Err ==> final(store).records@ == old(store).records@,
        old(store).records@.contains_key(anomaly_id) && new_data@.len() >= 1 ==> r is Ok
            && record_view(r->Ok_0) == refined(record_view(old(store).records@[anomaly_id]), new_data@, now)
            && final(store).records@ == old(store).records@.insert(anomaly_id, r->Ok_0),
{
    let mut existing = match store.records.get(&anomaly_id) {
        Some(e) => e.clone(),
        None => return Err(AnomalyError::NotFound),
    };
    if new_data.len() < 1 {
        return Err(AnomalyError::InsufficientFeatures);
    }
    let mut score = existing.confidence * existing.scan_count;
    let new_score = score_of(new_data);
    score = score.saturating_add(new_score);
    existing.scan_count = existing.scan_count.saturating_add(1);
    let avg = score / existing.scan_count;
    existing.confidence = if avg < 100 { avg } else { 100 };
    existing.last_updated = now;
    existing.anomaly_type = if existing.confidence > 80 {
        String::from_str("wormhole")
    } else if existing.confidence > 50 {
        String::from_str("nebula")
    } else {
        String::from_str("anomaly")
    };
    store.records.insert(anomaly_id, existing.clone());
    Ok(existing)
}

/// The classification of an anomaly, if any.
pub fn get_classification(store: &AnomalyStore, anomaly_id: u64) -> (r: Option<ClassificationRecord>)
    ensures
        r == (if store.records@.contains_key(anomaly_id) {
            Some(store.records@[anomaly_id])
        } else {
            None::<ClassificationRecord>
        }),
{
    match store.records.get(&anomaly_id) {
        Some(c) => Some(c.clone()),
        None => None,
    }
}

/// Law of classification: confidence never exceeds 100, whether first
/// classified or refined.
pub proof fn lemma_confidence_capped(anomaly_id: u64, features: Seq<u32>, e: RecordView, new_data: Seq<u32>, now: u64)
    ensures
        classified(anomaly_id, features, now).2 <= 100,
        refined(e, new_data, now).2 <= 100,
        refined(e, new_data, now).4 >= 1,
{
    lemma_score_bounds(features);
    lemma_score_bounds(new_data);
    let base = e.2 * e.4 + feature_score(new_data);
    let score = if base > u32::MAX { u32::MAX as int } else { base };
    let scans = if e.4 < u32::MAX { e.4 + 1 } else { e.4 as int };
    assert(e.2 * e.4 >= 0) by (nonlinear_arith) requires e.2 >= 0, e.4 >= 0;
    assert(scans >= 1);
    vstd::arithmetic::div_mod::lemma_div_pos_is_pos(score, scans);
}

/// A feature score lies within the range of `u32`.
pub proof fn lemma_score_bounds(fs: Seq<u32>)
    ensures
        0 <= feature_score(fs) <= u32::MAX,
    decreases fs.len(),
{
    if fs.len() > 0 {
        lemma_score_bounds(fs.drop_last());
    }
}

/// Law of refinement: the refined confidence is the average score over all
/// scans, each earlier scan counted once. With `n` earlier scans at confidence
/// `c` and a new score `s`, it is `(c * n + s) / (n + 1)` (the sum held within
/// a `u32`), capped at 100, and the scan count becomes `n + 1`. In particular a
/// new scan scoring exactly `c` leaves the confidence at `c`.
pub proof fn lemma_refinement_averages(e: RecordView, new_data: Seq<u32>, now: u64)
    requires
        e.4 < u32::MAX,
    ensures
        refined(e, new_data, now).0 == e.0,
        refined(e, new_data, now).3 == now,
        refined(e, new_data, now).4 == e.4 + 1,
        ({
            let sum = e.2 * e.4 + feature_score(new_data);
            let held = if sum > u32::MAX { u32::MAX as int } else { sum };
            let avg = held / (e.4 + 1);
            refined(e, new_data, now).2 == if avg > 100 { 100 } else { avg }
        }),
        e.2 <= 100 && feature_score(new_data) == e.2 && e.2 * (e.4 + 1) <= u32::MAX
            ==> refined(e, new_data, now).2 == e.2,
{
    let c = e.2 as int;
    let n = e.4 as int;
    lemma_score_bounds(new_data);
    assert(c * n >= 0) by (nonlinear_arith) requires c >= 0, n >= 0;
    let sum = c * n + feature_score(new_data);
    let held = if sum > u32::MAX { u32::MAX as int } else { sum };
    vstd::arithmetic::div_mod::lemma_div_pos_is_pos(held, n + 1);
    if feature_score(new_data) == c && c * (n + 1) <= u32::MAX {
        assert(c * n + c == c * (n + 1)) by (nonlinear_arith);
        assert((c * (n + 1)) / (n + 1) == c) by (nonlinear_arith) requires n + 1 > 0;
    }
}

} // verus!
