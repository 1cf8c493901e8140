use tonemap::select::RuleCandidate;
use tonemap::tonemap::{
    select_rules, ActiveRule, BufferLengthError, BufferPlan, ComponentMix, ControlPoint,
    Evaluation, PixelPlan, ToneMapper, ToneMappingRule, ONE_BITS,
};
use tonemap::wrapper::ToneMapperWrapper;

fn b(x: f32) -> u32 {
    x.to_bits()
}

fn mix(rgb: [f32; 3], max: f32, min: f32, component: f32) -> ComponentMix {
    ComponentMix { rgb: [b(rgb[0]), b(rgb[1]), b(rgb[2])], max: b(max), min: b(min), component: b(component) }
}

fn rule(headroom: f32, points: &[(f32, f32, f32)]) -> ToneMappingRule {
    ToneMappingRule {
        alternate_hdr_headroom_log2: b(headroom),
        mix: mix([0.0, 0.0, 0.0], 0.0, 0.0, 1.0),
        curve: points.iter().map(|&(x, y, m)| ControlPoint { x: b(x), y: b(y), m: b(m) }).collect(),
    }
}

fn curve_rule() -> ActiveRule {
    ActiveRule::from_candidate(RuleCandidate { headroom: b(2.0), rule_index: Some(0) }, &vec![rule(2.0, &[(0.0, 1.0, 0.0)])])
}

#[test]
fn identity_mapper_is_identity() {
    let m = ToneMapper::identity();
    assert!(m.is_identity());
    assert_eq!(m.weight_0(), ONE_BITS);
    assert_eq!(m.weight_0(), b(1.0));
    assert_eq!(m.weight_1(), b(0.0));
    assert!(matches!(m.rule_0(), ActiveRule::ZeroGain));
    assert!(matches!(m.rule_1(), ActiveRule::ZeroGain));
    assert!(matches!(m.pixel_plan(), PixelPlan::Unchanged));
    assert!(matches!(m.buffer_plan(3), Ok(BufferPlan::Unchanged)));
}

#[test]
fn blend_identity_decision() {
    // Two zero-gain rules are an identity whatever the weights.
    assert!(ToneMapper::blend(ActiveRule::ZeroGain, ActiveRule::ZeroGain, b(0.5), b(0.5)).is_identity());
    // Zero gain below, curve above with weight zero.
    assert!(ToneMapper::blend(ActiveRule::ZeroGain, curve_rule(), b(1.0), b(0.0)).is_identity());
    assert!(ToneMapper::blend(ActiveRule::ZeroGain, curve_rule(), b(1.0), b(-0.0)).is_identity());
    // Curve below with weight zero, zero gain above.
    assert!(ToneMapper::blend(curve_rule(), ActiveRule::ZeroGain, b(0.0), b(1.0)).is_identity());
    // Curve below with positive weight, zero gain above.
    assert!(!ToneMapper::blend(curve_rule(), ActiveRule::ZeroGain, b(1.0), b(0.0)).is_identity());
    // Halfway between the baseline and a curve.
    assert!(!ToneMapper::blend(ActiveRule::ZeroGain, curve_rule(), b(0.5), b(0.5)).is_identity());
    // Two curves.
    assert!(!ToneMapper::blend(curve_rule(), curve_rule(), b(0.0), b(1.0)).is_identity());
    // NaN weights are not zero.
    assert!(!ToneMapper::blend(ActiveRule::ZeroGain, curve_rule(), b(f32::NAN), b(f32::NAN)).is_identity());
}

#[test]
fn pixel_plan_uses_positive_weights() {
    let m = ToneMapper::blend(ActiveRule::ZeroGain, curve_rule(), b(0.5), b(0.5));
    assert!(matches!(m.pixel_plan(), PixelPlan::Blend { use_rule_0: true, use_rule_1: true }));
    let m = ToneMapper::blend(curve_rule(), curve_rule(), b(1.0), b(0.0));
    assert!(matches!(m.pixel_plan(), PixelPlan::Blend { use_rule_0: true, use_rule_1: false }));
    let m = ToneMapper::blend(ActiveRule::ZeroGain, curve_rule(), b(f32::NAN), b(f32::NAN));
    assert!(matches!(m.pixel_plan(), PixelPlan::Blend { use_rule_0: false, use_rule_1: false }));
}

#[test]
fn buffer_length_must_be_multiple_of_three() {
    let m = ToneMapper::blend(ActiveRule::ZeroGain, curve_rule(), b(0.5), b(0.5));
    assert!(matches!(m.buffer_plan(4), Err(BufferLengthError { len: 4 })));
    assert!(matches!(ToneMapper::identity().buffer_plan(4), Err(BufferLengthError { len: 4 })));
    assert!(matches!(m.buffer_plan(6), Ok(BufferPlan::MapPixels { pixels: 2 })));
}

#[test]
fn empty_buffer_succeeds() {
    let m = ToneMapper::blend(ActiveRule::ZeroGain, curve_rule(), b(0.5), b(0.5));
    assert!(matches!(m.buffer_plan(0), Ok(BufferPlan::MapPixels { pixels: 0 })));
    assert!(matches!(ToneMapper::identity().buffer_plan(0), Ok(BufferPlan::Unchanged)));
}

#[test]
fn active_rule_from_candidate() {
    let rules = vec![
        rule(1.0, &[(0.0, 1.0, 0.0), (64.0, 1.0, 0.0)]),
        rule(3.0, &[(0.0, 0.0, 2.0), (0.5, 0.25, 1.0), (1.0, 0.0, -2.0)]),
    ];
    assert!(matches!(ActiveRule::from_candidate(RuleCandidate { headroom: b(0.0), rule_index: None }, &rules), ActiveRule::ZeroGain));
    match ActiveRule::from_candidate(RuleCandidate { headroom: b(3.0), rule_index: Some(1) }, &rules) {
        ActiveRule::Curve { mix: m, curve } => {
            assert_eq!(m.component, b(1.0));
            assert_eq!(curve.x, vec![b(0.0), b(0.5), b(1.0)]);
            assert_eq!(curve.y, vec![b(0.0), b(0.25), b(0.0)]);
            assert_eq!(curve.slopes, vec![b(2.0), b(1.0), b(-2.0)]);
        }
        ActiveRule::ZeroGain => panic!("expected a curve"),
    }
}

#[test]
fn zero_component_weight_shares_gain() {
    let with_component = |c: f32| ActiveRule::Curve {
        mix: mix([0.2627, 0.6780, 0.0593], 0.0, 0.0, c),
        curve: tonemap::tonemap::GainCurvePoints { x: vec![], y: vec![], slopes: vec![] },
    };
    assert!(matches!(with_component(0.0).evaluation(), Evaluation::SharedGain));
    assert!(matches!(with_component(-0.0).evaluation(), Evaluation::SharedGain));
    assert!(matches!(with_component(0.5).evaluation(), Evaluation::PerChannelGain));
    assert!(matches!(with_component(f32::NAN).evaluation(), Evaluation::PerChannelGain));
    assert!(matches!(ActiveRule::ZeroGain.evaluation(), Evaluation::Zero));
}

#[test]
fn select_rules_between_two_alternate_rules() {
    let rules = vec![rule(1.0, &[(0.0, 1.0, 0.0)]), rule(3.0, &[(0.0, 3.0, 0.0)])];
    let s = select_rules(&rules, b(0.0), b(2.0)).expect("a selection");
    assert_eq!(s.lower.rule_index, Some(0));
    assert_eq!(s.upper.rule_index, Some(1));
    assert!(s.interpolate);
    match (&s.rule_0, &s.rule_1) {
        (ActiveRule::Curve { curve: c0, .. }, ActiveRule::Curve { curve: c1, .. }) => {
            assert_eq!(c0.y, vec![b(1.0)]);
            assert_eq!(c1.y, vec![b(3.0)]);
        }
        _ => panic!("expected two curves"),
    }
}

#[test]
fn select_rules_without_alternate_rules() {
    assert!(select_rules(&Vec::new(), b(2.0), b(0.0)).is_none());
}

#[test]
fn select_rules_equal_headrooms_do_not_interpolate() {
    let rules = vec![rule(2.0, &[(0.0, 1.0, 0.0)])];
    let s = select_rules(&rules, b(2.0), b(2.0)).expect("a selection");
    assert_eq!(s.lower.rule_index, Some(0));
    assert_eq!(s.upper.rule_index, None);
    assert!(!s.interpolate);
    assert!(matches!(s.rule_1, ActiveRule::ZeroGain));
}

#[test]
fn select_rules_baseline_below_rule() {
    let rules = vec![rule(2.0, &[(0.0, 1.0, 0.0)])];
    let s = select_rules(&rules, b(0.0), b(1.0)).expect("a selection");
    assert_eq!(s.lower.rule_index, None);
    assert_eq!(s.upper.rule_index, Some(0));
    assert!(s.interpolate);
    assert!(matches!(s.rule_0, ActiveRule::ZeroGain));
}

#[test]
fn wrapper_reports_and_clones() {
    let w = ToneMapperWrapper::new(ToneMapper::identity());
    assert!(w.is_identity());
    let c = w.clone_box();
    assert!(c.is_identity());
    let w = ToneMapperWrapper::new(ToneMapper::blend(ActiveRule::ZeroGain, curve_rule(), b(0.25), b(0.75)));
    assert!(!w.is_identity());
    let c = w.clone_box();
    assert!(!c.is_identity());
    assert_eq!(c.inner().weight_1(), b(0.75));
    match c.inner().rule_1() {
        ActiveRule::Curve { curve, .. } => assert_eq!(curve.y, vec![b(1.0)]),
        ActiveRule::ZeroGain => panic!("expected a curve"),
    }
}
