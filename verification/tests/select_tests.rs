use tonemap::select::{select_bracket, RuleCandidate};

fn b(x: f32) -> u32 {
    x.to_bits()
}

fn pick(rules: &[f32], baseline: f32, target: f32) -> (Option<usize>, Option<usize>) {
    let hs: Vec<u32> = rules.iter().map(|h| b(*h)).collect();
    let (lower, upper): (RuleCandidate, RuleCandidate) =
        select_bracket(&hs, b(baseline), b(target)).expect("a bracket");
    (lower.rule_index, upper.rule_index)
}

#[test]
fn baseline_alone_gives_no_bracket() {
    assert!(select_bracket(&Vec::new(), b(2.0), b(0.0)).is_none());
}

#[test]
fn interpolates_between_two_alternate_rules() {
    // Rules at 1.0 and 3.0, baseline at 0.0, target 2.0: the two rules, not the baseline.
    assert_eq!(pick(&[1.0, 3.0], 0.0, 2.0), (Some(0), Some(1)));
}

#[test]
fn baseline_between_rules() {
    // Order of headrooms: rule A (0.0), baseline (2.0), rule B (4.0).
    assert_eq!(pick(&[0.0, 4.0], 2.0, 1.0), (Some(0), None));
    assert_eq!(pick(&[0.0, 4.0], 2.0, 3.0), (None, Some(1)));
}

#[test]
fn target_beyond_extremes() {
    // Above every headroom: the two highest.
    assert_eq!(pick(&[2.0], 1.0, 5.0), (None, Some(0)));
    // At the lowest headroom: the two lowest.
    assert_eq!(pick(&[2.0], 1.0, 1.0), (None, Some(0)));
    // Below every headroom.
    assert_eq!(pick(&[2.0, 3.0], 1.0, -4.0), (None, Some(0)));
    // Above, with three candidates.
    assert_eq!(pick(&[2.0, 3.0], 1.0, 6.0), (Some(0), Some(1)));
}

#[test]
fn target_at_alternate_headroom() {
    assert_eq!(pick(&[2.0], 0.0, 2.0), (None, Some(0)));
    assert_eq!(pick(&[2.0], 0.0, 1.0), (None, Some(0)));
}

#[test]
fn nan_target_takes_the_top() {
    assert_eq!(pick(&[1.0, 3.0], 0.0, f32::NAN), (Some(0), Some(1)));
}

#[test]
fn equal_headrooms_keep_metadata_order() {
    // Rule and baseline at 2.0: the rule comes first.
    assert_eq!(pick(&[2.0], 2.0, 2.0), (Some(0), None));
    // Two rules at 1.0 and the baseline at 1.0, target above: the last two in order.
    assert_eq!(pick(&[1.0, 1.0], 1.0, 5.0), (Some(1), None));
    // Negative and positive zero are the same headroom.
    assert_eq!(pick(&[-0.0], 0.0, 0.0), (Some(0), None));
}

#[test]
fn unsorted_rules_are_sorted() {
    // Rules at 5.0, 1.0, 3.0; baseline 0.0; target 2.5 lies between 1.0 and 3.0.
    assert_eq!(pick(&[5.0, 1.0, 3.0], 0.0, 2.5), (Some(1), Some(2)));
    // Target 4.0 between 3.0 and 5.0.
    assert_eq!(pick(&[5.0, 1.0, 3.0], 0.0, 4.0), (Some(2), Some(0)));
    // Target 0.5 between the baseline and 1.0.
    assert_eq!(pick(&[5.0, 1.0, 3.0], 0.0, 0.5), (None, Some(1)));
}
