use stellar_nebula_nomad::difficulty_scaler::{apply_scaling_to_layout, calculate_difficulty, DifficultyError};

#[test]
fn test_difficulty_level_1() {
    let result = calculate_difficulty(1u32).unwrap();
    assert_eq!(result.anomaly_count, 5);
    assert_eq!(result.difficulty_multiplier, 100);
    assert!(result.rarity_weights.common >= 50);
}

#[test]
fn test_difficulty_level_50() {
    let result = calculate_difficulty(50u32).unwrap();
    assert_eq!(result.anomaly_count, 103);
    assert!(result.difficulty_multiplier > 100);
    assert!(result.difficulty_multiplier < 200);
}

#[test]
fn test_difficulty_level_100() {
    let result = calculate_difficulty(100u32).unwrap();
    assert_eq!(result.anomaly_count, 203);
    assert_eq!(result.difficulty_multiplier, 200);
    assert!(result.rarity_weights.legendary > 1);
    assert!(result.rarity_weights.common < 60);
}

#[test]
fn test_difficulty_invalid_level_zero() {
    let result = calculate_difficulty(0u32);
    assert!(result.is_err());
}

#[test]
fn test_difficulty_invalid_level_over_max() {
    let result = calculate_difficulty(101u32);
    assert!(result.is_err());
}

#[test]
fn test_rarity_weights_sum_to_100() {
    for level in [1u32, 10, 25, 50, 75, 100] {
        let result = calculate_difficulty(level).unwrap();
        let w = &result.rarity_weights;
        let sum = w.common + w.uncommon + w.rare + w.epic + w.legendary;
        assert_eq!(sum, 100, "Weights must sum to 100 at level {}", level);
    }
}

#[test]
fn test_difficulty_increases_with_level() {
    let low = calculate_difficulty(1u32).unwrap();
    let mid = calculate_difficulty(50u32).unwrap();
    let high = calculate_difficulty(100u32).unwrap();
    assert!(low.anomaly_count < mid.anomaly_count);
    assert!(mid.anomaly_count < high.anomaly_count);
    assert!(low.difficulty_multiplier <= mid.difficulty_multiplier);
    assert!(mid.difficulty_multiplier <= high.difficulty_multiplier);
}

#[test]
fn test_apply_scaling_to_layout() {
    let scaled_1 = apply_scaling_to_layout(10u32, 1u32).unwrap();
    assert_eq!(scaled_1, 10);
    let scaled_100 = apply_scaling_to_layout(10u32, 100u32).unwrap();
    assert_eq!(scaled_100, 20);
}

#[test]
fn test_apply_scaling_invalid_level() {
    let result = apply_scaling_to_layout(10u32, 0u32);
    assert!(result.is_err());
}

#[test]
fn test_legendary_weight_increases_with_level() {
    let low = calculate_difficulty(1u32).unwrap();
    let high = calculate_difficulty(100u32).unwrap();
    assert!(high.rarity_weights.legendary > low.rarity_weights.legendary);
}

#[test]
fn difficulty_exact_weights() {
    let w1 = calculate_difficulty(1).unwrap().rarity_weights;
    assert_eq!((w1.common, w1.uncommon, w1.rare, w1.epic, w1.legendary), (60, 25, 10, 4, 1));
    let w100 = calculate_difficulty(100).unwrap().rarity_weights;
    assert_eq!((w100.common, w100.uncommon, w100.rare, w100.epic, w100.legendary), (10, 20, 30, 25, 15));
    // Level 50: progress (49 * 100) / 99 = 49.
    let r50 = calculate_difficulty(50).unwrap();
    assert_eq!(r50.difficulty_multiplier, 149);
    let w = r50.rarity_weights;
    assert_eq!((w.common, w.rare, w.epic, w.legendary), (36, 19, 14, 7));
    assert_eq!(w.uncommon, 24);
    for level in 1..=100u32 {
        let w = calculate_difficulty(level).unwrap().rarity_weights;
        assert_eq!(w.common + w.uncommon + w.rare + w.epic + w.legendary, 100);
    }
    assert_eq!(apply_scaling_to_layout(7, 50).unwrap(), 10);
    assert_eq!(apply_scaling_to_layout(7, 101).unwrap_err(), DifficultyError::InvalidLevel);
}
