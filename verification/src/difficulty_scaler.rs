use vstd::prelude::*;

verus! {

/// Maximum player level.
pub const MAX_LEVEL: u32 = 100;
/// Base anomaly count at level 1.
pub const BASE_ANOMALY_COUNT: u32 = 5;
/// Anomaly count increment per level.
pub const ANOMALY_PER_LEVEL: u32 = 2;

/// Errors of difficulty scaling.
#[derive(Clone, Copy, Debug, PartialEq, Eq, Structural)]
pub enum DifficultyError {
    /// Player level is invalid (0 or > 100).
    InvalidLevel,
}

/// Rarity weight distribution, in percent, summing to 100.
#[derive(Clone, Copy, Debug, PartialEq, Eq, Structural)]
pub struct RarityWeights {
    pub common: u32,
    pub uncommon: u32,
    pub rare: u32,
    pub epic: u32,
    pub legendary: u32,
}

/// Result of a difficulty calculation.
#[derive(Clone, Copy, Debug, PartialEq, Eq, Structural)]
pub struct DifficultyResult {
    pub anomaly_count: u32,
    pub rarity_weights: RarityWeights,
    pub difficulty_multiplier: u32,
}

/// Progress through the levels, 0 at level 1 and 100 at level 100.
pub open spec fn level_frac(level: int) -> int {
    (level - 1) * 100 / 99
}

/// The rarity weights at a level: rarer tiers gain as the level rises and
/// uncommon takes what is left of 100.
pub open spec fn weights_at(level: int) -> RarityWeights {
    let f = level_frac(level);
    let common = 60 - f * 50 / 100;
    let legendary = 1 + f * 14 / 100;
    let epic = 4 + f * 21 / 100;
    let rare = 10 + f * 20 / 100;
    let rest = common + rare + epic + legendary;
    RarityWeights {
        common: common as u32,
        uncommon: (if rest < 100 { 100 - rest } else { 0 }) as u32,
        rare: rare as u32,
        epic: epic as u32,
        legendary: legendary as u32,
    }
}

/// The difficulty at a valid level.
pub open spec fn difficulty_at(level: int) -> DifficultyResult {
    DifficultyResult {
        anomaly_count: (BASE_ANOMALY_COUNT + (level - 1) * ANOMALY_PER_LEVEL) as u32,
        rarity_weights: weights_at(level),
        difficulty_multiplier: (100 + level_frac(level)) as u32,
    }
}

/// Difficulty for a player level (1..=100): more anomalies, a higher
/// multiplier (100 at level 1, 200 at level 100) and rarer rarity weights
/// as the level rises.
pub fn calculate_difficulty(player_level: u32) -> (r: Result<DifficultyResult, DifficultyError>)
    ensures
        (player_level == 0 || player_level > MAX_LEVEL) ==> r == Err::<DifficultyResult, DifficultyError>(DifficultyError::InvalidLevel),
        1 <= player_level <= MAX_LEVEL ==> r == Ok::<DifficultyResult, DifficultyError>(difficulty_at(player_level as int)),
{
    if player_level == 0 || player_level > MAX_LEVEL {
        return Err(DifficultyError::InvalidLevel);
    }
    let anomaly_count = BASE_ANOMALY_COUNT + (player_level - 1) * ANOMALY_PER_LEVEL;
    let difficulty_multiplier = 100 + (player_level - 1) * 100 / (MAX_LEVEL - 1);
    let level_frac = (player_level - 1) * 100 / (MAX_LEVEL - 1);
    let common = 60u32.saturating_sub(level_frac * 50 / 100);
    let legendary = 1 + level_frac * 14 / 100;
    let epic = 4 + level_frac * 21 / 100;
    let rare = 10 + level_frac * 20 / 100;
    let uncommon = 100u32.saturating_sub(common + rare + epic + legendary);
    let rarity_weights = RarityWeights { common, uncommon, rare, epic, legendary };
    Ok(DifficultyResult { anomaly_count, rarity_weights, difficulty_multiplier })
}

/// Scale a base anomaly count by the difficulty multiplier of a level.
pub fn apply_scaling_to_layout(base_anomaly_count: u32, player_level: u32) -> (r: Result<u32, DifficultyError>)
    requires
        1 <= player_level <= MAX_LEVEL ==> base_anomaly_count * difficulty_at(player_level as int).difficulty_multiplier <= u32::MAX,
    ensures
        (player_level == 0 || player_level > MAX_LEVEL) ==> r == Err::<u32, DifficultyError>(DifficultyError::InvalidLevel),
        1 <= player_level <= MAX_LEVEL ==> r == Ok::<u32, DifficultyError>(
            (base_anomaly_count * difficulty_at(player_level as int).difficulty_multiplier / 100) as u32,
        ),
{
    let result = calculate_difficulty(player_level)?;
    let scaled = base_anomaly_count * result.difficulty_multiplier / 100;
    Ok(scaled)
}

/// Law of difficulty: at every valid level the rarity weights sum to 100.
pub proof fn lemma_weights_sum_to_100(level: int)
    requires
        1 <= level <= MAX_LEVEL,
    ensures
        ({
            let w = weights_at(level);
            w.common + w.uncommon + w.rare + w.epic + w.legendary == 100
        }),
{
    let f = level_frac(level);
    assert(0 <= f <= 100);
    assert(f * 50 / 100 + 1 >= f * 50 / 100 && f * 50 / 100 <= 50);
}

/// Law of difficulty: a higher level never has fewer anomalies, a lower
/// multiplier, a lower legendary weight or a higher common weight.
pub proof fn lemma_difficulty_monotone(l1: int, l2: int)
    requires
        1 <= l1 <= l2 <= MAX_LEVEL,
    ensures
        difficulty_at(l1).anomaly_count <= difficulty_at(l2).anomaly_count,
        difficulty_at(l1).difficulty_multiplier <= difficulty_at(l2).difficulty_multiplier,
        weights_at(l1).legendary <= weights_at(l2).legendary,
        weights_at(l1).common >= weights_at(l2).common,
{
    vstd::arithmetic::div_mod::lemma_div_is_ordered((l1 - 1) * 100, (l2 - 1) * 100, 99);
    let f1 = level_frac(l1);
    let f2 = level_frac(l2);
    vstd::arithmetic::div_mod::lemma_div_is_ordered(f1 * 14, f2 * 14, 100);
    vstd::arithmetic::div_mod::lemma_div_is_ordered(f1 * 50, f2 * 50, 100);
}

} // verus!
