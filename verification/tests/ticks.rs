//! Tests for tick-mark groups and subdivision.

use audio_params::Normal;
use audio_params::TickMark;
use audio_params::TickMarkGroup;
use audio_params::TickMarkTier;

#[test]
fn explicit_group_keeps_marks_as_given() {
    let marks = vec![
        TickMark { position: Normal::new(900_000), tier: TickMarkTier::Two },
        TickMark { position: Normal::new(100_000), tier: TickMarkTier::One },
    ];
    let group = TickMarkGroup::new(marks);
    assert_eq!(group.len(), 2);
    assert_eq!(group.group[0].position.value(), 900_000);
    assert_eq!(group.group[0].tier, TickMarkTier::Two);
    assert_eq!(group.group[1].position.value(), 100_000);
    assert_eq!(group.group[1].tier, TickMarkTier::One);
}

#[test]
fn subdivided_places_center_and_bisections() {
    let group = TickMarkGroup::subdivided(1, 1, 1, TickMarkTier::Three);
    assert_eq!(group.len(), 7);
    let at = |tier: TickMarkTier, position: i64| {
        assert!(
            group.group.iter().any(|m| m.tier == tier && m.position.value() == position),
            "missing {position} at {tier:?}"
        );
    };
    at(TickMarkTier::One, 500_000);
    at(TickMarkTier::Two, 250_000);
    at(TickMarkTier::Two, 750_000);
    at(TickMarkTier::Three, 125_000);
    at(TickMarkTier::Three, 375_000);
    at(TickMarkTier::Three, 625_000);
    at(TickMarkTier::Three, 875_000);
}

#[test]
fn subdivided_caps_the_deepest_tier() {
    let group = TickMarkGroup::subdivided(1, 1, 1, TickMarkTier::Two);
    assert_eq!(group.len(), 3);
    assert!(group.group.iter().all(|m| m.tier != TickMarkTier::Three));
    assert!(group.group.iter().any(|m| m.tier == TickMarkTier::Two));
}

#[test]
fn subdivided_tier_one_only() {
    let group = TickMarkGroup::subdivided(3, 5, 7, TickMarkTier::One);
    assert_eq!(group.len(), 3);
    assert!(group.group.iter().all(|m| m.tier == TickMarkTier::One));
    assert_eq!(group.group[0].position.value(), 250_000);
    assert_eq!(group.group[1].position.value(), 500_000);
    assert_eq!(group.group[2].position.value(), 750_000);
}

#[test]
fn subdivided_counts_multiply_per_gap() {
    let group = TickMarkGroup::subdivided(3, 2, 1, TickMarkTier::Three);
    // Three tier-one marks leave four gaps; two tier-two marks per gap
    // leave twelve gaps of their own... the finer grid has 4 * 3 = 12
    // segments, and one tier-three mark falls in each of its 12 gaps.
    assert_eq!(group.len(), 3 + 2 * 4 + 1 * 4 * 3);
    let twos: Vec<i64> = group
        .group
        .iter()
        .filter(|m| m.tier == TickMarkTier::Two)
        .map(|m| m.position.value())
        .collect();
    // The first gap spans a quarter; its two tier-two marks cut it in
    // twelfths of the whole.
    assert_eq!(twos[0], 83_333);
    assert_eq!(twos[1], 166_666);
}
