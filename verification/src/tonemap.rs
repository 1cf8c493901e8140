//! The tone mapper (SMPTE ST 2094-50 Section 6): which rules take part, with
//! which weights, and what that means for a pixel and for a buffer of pixels.
//!
//! Headrooms, weights, mixing coefficients and curve points are held as the bit
//! patterns of single-precision numbers; the arithmetic on them (component
//! mixing, the gain curve, the weights' interpolation, exponentiation) is done
//! by the caller.
use vstd::prelude::*;
use crate::binary32::{is_nan, value, is_zero, is_positive};
use crate::select::{RuleCandidate, select_bracket, candidates, is_bracket, headrooms_are_numbers};

verus! {

/// The bit pattern of 1.0.
pub const ONE_BITS: u32 = 0x3F80_0000;

/// Component mixing coefficients (Section 6.4), each a bit pattern.
#[derive(Clone, Copy, Debug)]
pub struct ComponentMix {
    pub rgb: [u32; 3],
    pub max: u32,
    pub min: u32,
    pub component: u32,
}

/// A control point of a gain curve: position, gain and slope, each a bit pattern.
#[derive(Clone, Copy, Debug)]
pub struct ControlPoint {
    pub x: u32,
    pub y: u32,
    pub m: u32,
}

/// An alternate tone mapping rule of the metadata, after its implicit parameters
/// have been filled in.
#[derive(Debug)]
pub struct ToneMappingRule {
    pub alternate_hdr_headroom_log2: u32,
    pub mix: ComponentMix,
    pub curve: Vec<ControlPoint>,
}

/// The positions, gains and slopes from which the rule's gain curve is built.
#[derive(Debug)]
pub struct GainCurvePoints {
    pub x: Vec<u32>,
    pub y: Vec<u32>,
    pub slopes: Vec<u32>,
}

pub struct CurveView {
    pub x: Seq<u32>,
    pub y: Seq<u32>,
    pub slopes: Seq<u32>,
}

impl View for GainCurvePoints {
    type V = CurveView;

    open spec fn view(&self) -> CurveView {
        CurveView { x: self.x@, y: self.y@, slopes: self.slopes@ }
    }
}

/// The curve that a metadata rule defines.
pub open spec fn curve_of(rule: ToneMappingRule) -> CurveView {
    CurveView {
        x: rule.curve@.map_values(|p: ControlPoint| p.x),
        y: rule.curve@.map_values(|p: ControlPoint| p.y),
        slopes: rule.curve@.map_values(|p: ControlPoint| p.m),
    }
}

/// A rule that contributes to tone mapping.
#[derive(Debug)]
pub enum ActiveRule {
    /// Zero color gain function (applied at baseline HDR headroom).
    ZeroGain,
    /// Curve rule with associated component mixing and gain curve.
    Curve { mix: ComponentMix, curve: GainCurvePoints },
}

pub enum RuleView {
    ZeroGain,
    Curve { mix: ComponentMix, curve: CurveView },
}

impl View for ActiveRule {
    type V = RuleView;

    open spec fn view(&self) -> RuleView {
        match self {
            ActiveRule::ZeroGain => RuleView::ZeroGain,
            ActiveRule::Curve { mix, curve } => RuleView::Curve { mix: *mix, curve: curve@ },
        }
    }
}

/// How a rule turns a pixel into gains.
#[derive(Clone, Copy, Debug)]
pub enum Evaluation {
    /// Every gain is zero.
    Zero,
    /// One gain, read off the curve at the first mixed component, serves all three channels.
    SharedGain,
    /// Each channel's gain is read off the curve at its own mixed component.
    PerChannelGain,
}

/// The way a rule evaluates: the shared gain exactly when its component weight is zero.
pub open spec fn evaluation_of(rule: RuleView) -> Evaluation {
    match rule {
        RuleView::ZeroGain => Evaluation::Zero,
        RuleView::Curve { mix, .. } => if !is_nan(mix.component) && value(mix.component) == 0 {
            Evaluation::SharedGain
        } else {
            Evaluation::PerChannelGain
        },
    }
}

/// The rule that a candidate stands for.
pub open spec fn rule_of(candidate: RuleCandidate, rules: Seq<ToneMappingRule>) -> RuleView {
    match candidate.rule_index {
        None => RuleView::ZeroGain,
        Some(i) => RuleView::Curve { mix: rules[i as int].mix, curve: curve_of(rules[i as int]) },
    }
}

/// The baseline stands for the zero-gain rule, and a metadata rule for a curve
/// rule that carries that rule's mixing coefficients unchanged and its control
/// points, in order, as positions, gains and slopes.
pub proof fn lemma_rule_of_keeps_metadata(candidate: RuleCandidate, rules: Seq<ToneMappingRule>)
    ensures
        candidate.rule_index is None ==> rule_of(candidate, rules) is ZeroGain,
        candidate.rule_index matches Some(i) ==> {
            &&& rule_of(candidate, rules) matches RuleView::Curve { mix, curve } && {
                &&& mix == rules[i as int].mix
                &&& curve.x.len() == rules[i as int].curve@.len()
                &&& curve.y.len() == rules[i as int].curve@.len()
                &&& curve.slopes.len() == rules[i as int].curve@.len()
                &&& forall|k: int|
                    0 <= k < curve.x.len() ==> {
                        &&& #[trigger] curve.x[k] == rules[i as int].curve@[k].x
                        &&& curve.y[k] == rules[i as int].curve@[k].y
                        &&& curve.slopes[k] == rules[i as int].curve@[k].m
                    }
            }
        },
{
}

/// A rule shares one gain across the channels exactly when it has a curve and
/// its component weight is zero, whatever its other coefficients; the zero-gain
/// rule, and only it, gives zero gains.
pub proof fn lemma_shared_gain_iff_zero_component(rule: RuleView)
    ensures
        (evaluation_of(rule) is Zero) <==> (rule is ZeroGain),
        (evaluation_of(rule) is SharedGain) <==> (rule matches RuleView::Curve { mix, .. }
            && !is_nan(mix.component) && value(mix.component) == 0),
{
}

impl ActiveRule {
    /// The active rule for a candidate: the zero-gain rule for the baseline, else
    /// the metadata rule's mixing and the points of its curve.
    pub fn from_candidate(candidate: RuleCandidate, rules: &Vec<ToneMappingRule>) -> (r: ActiveRule)
        requires
            candidate.rule_index matches Some(i) ==> i < rules.len(),
        ensures
            r@ == rule_of(candidate, rules@),
            candidate.rule_index is None ==> r is ZeroGain,
            candidate.rule_index matches Some(i) ==> {
                &&& r matches ActiveRule::Curve { mix, curve } && {
                    &&& mix == rules@[i as int].mix
                    &&& curve.x@.len() == rules@[i as int].curve@.len()
                    &&& curve.y@.len() == rules@[i as int].curve@.len()
                    &&& curve.slopes@.len() == rules@[i as int].curve@.len()
                    &&& forall|k: int|
                        0 <= k < curve.x@.len() ==> {
                            &&& #[trigger] curve.x@[k] == rules@[i as int].curve@[k].x
                            &&& curve.y@[k] == rules@[i as int].curve@[k].y
                            &&& curve.slopes@[k] == rules@[i as int].curve@[k].m
                        }
                }
            },
    {
        match candidate.rule_index {
            None => ActiveRule::ZeroGain,
            Some(idx) => {
                let rule = &rules[idx];
                let n = rule.curve.len();
                let mut x: Vec<u32> = Vec::new();
                let mut y: Vec<u32> = Vec::new();
                let mut slopes: Vec<u32> = Vec::new();
                let mut i: usize = 0;
                while i < n
                    invariant
                        n == rule.curve.len(),
                        i <= n,
                        x@ == rule.curve@.take(i as int).map_values(|p: ControlPoint| p.x),
                        y@ == rule.curve@.take(i as int).map_values(|p: ControlPoint| p.y),
                        slopes@ == rule.curve@.take(i as int).map_values(|p: ControlPoint| p.m),
                    decreases n - i,
                {
                    let p = rule.curve[i];
                    x.push(p.x);
                    y.push(p.y);
                    slopes.push(p.m);
                    proof {
                        let t = rule.curve@.take(i + 1);
                        assert(t.drop_last() =~= rule.curve@.take(i as int));
                        assert(x@ =~= t.map_values(|p: ControlPoint| p.x));
                        assert(y@ =~= t.map_values(|p: ControlPoint| p.y));
                        assert(slopes@ =~= t.map_values(|p: ControlPoint| p.m));
                    }
                    i = i + 1;
                }
                proof {
                    assert(rule.curve@.take(n as int) =~= rule.curve@);
                }
                ActiveRule::Curve { mix: rule.mix, curve: GainCurvePoints { x, y, slopes } }
            },
        }
    }

    /// How this rule evaluates a pixel.
    pub fn evaluation(&self) -> (r: Evaluation)
        ensures
            r == evaluation_of(self@),
            (r is Zero) <==> (self is ZeroGain),
            (r is SharedGain) <==> (self matches ActiveRule::Curve { mix, .. } && !is_nan(mix.component)
                && value(mix.component) == 0),
            (r is PerChannelGain) <==> (self matches ActiveRule::Curve { mix, .. } && !(!is_nan(
                mix.component,
            ) && value(mix.component) == 0)),
    {
        match self {
            ActiveRule::ZeroGain => Evaluation::Zero,
            ActiveRule::Curve { mix, .. } => if is_zero(mix.component) {
                Evaluation::SharedGain
            } else {
                Evaluation::PerChannelGain
            },
        }
    }
}

/// The weight is a zero (`w == 0.0`).
pub open spec fn is_zero_weight(w: u32) -> bool {
    !is_nan(w) && value(w) == 0
}

/// The weight is positive (`w > 0.0`).
pub open spec fn is_positive_weight(w: u32) -> bool {
    !is_nan(w) && value(w) > 0
}

/// Tone mapping with these rules and weights changes nothing: both rules have
/// zero gain, or the one rule that has a curve gets weight zero.
pub open spec fn identity_condition(rule_0: RuleView, rule_1: RuleView, weight_0: u32, weight_1: u32) -> bool {
    ||| rule_0 is ZeroGain && rule_1 is ZeroGain
    ||| rule_0 is ZeroGain && is_zero_weight(weight_1)
    ||| rule_1 is ZeroGain && is_zero_weight(weight_0)
}

/// Headroom-adaptive tone mapper: two rules with their weights.
pub struct ToneMapper {
    rule_0: ActiveRule,
    rule_1: ActiveRule,
    weight_0: u32,
    weight_1: u32,
    is_identity: bool,
}

pub struct ToneMapperView {
    pub rule_0: RuleView,
    pub rule_1: RuleView,
    pub weight_0: u32,
    pub weight_1: u32,
    pub is_identity: bool,
}

impl View for ToneMapper {
    type V = ToneMapperView;

    closed spec fn view(&self) -> ToneMapperView {
        ToneMapperView {
            rule_0: self.rule_0@,
            rule_1: self.rule_1@,
            weight_0: self.weight_0,
            weight_1: self.weight_1,
            is_identity: self.is_identity,
        }
    }
}

/// What tone mapping a pixel takes.
#[derive(Clone, Copy, Debug)]
pub enum PixelPlan {
    /// The pixel is returned as it is.
    Unchanged,
    /// The pixel is scaled by 2 to the weighted sum of the gains of the rules
    /// marked here (a rule that is not marked adds nothing).
    Blend { use_rule_0: bool, use_rule_1: bool },
}

/// What tone mapping an interleaved RGB buffer takes.
#[derive(Clone, Copy, Debug)]
pub enum BufferPlan {
    /// The buffer is left as it is.
    Unchanged,
    /// Each of the `pixels` consecutive RGB triples is tone mapped in place.
    MapPixels { pixels: usize },
}

/// The buffer's length is not a multiple of 3.
#[derive(Clone, Copy, Debug)]
pub struct BufferLengthError {
    pub len: usize,
}

/// How a pixel is tone mapped: unchanged by an identity mapper, else each rule
/// whose weight is positive contributes its weighted gain.
pub open spec fn pixel_plan_of(m: ToneMapperView) -> PixelPlan {
    if m.is_identity {
        PixelPlan::Unchanged
    } else {
        PixelPlan::Blend {
            use_rule_0: is_positive_weight(m.weight_0),
            use_rule_1: is_positive_weight(m.weight_1),
        }
    }
}

/// How a buffer of `len` interleaved RGB values is tone mapped: an error unless
/// `len` is a multiple of 3; else unchanged by an identity mapper, else pixel by pixel.
pub open spec fn buffer_plan_of(m: ToneMapperView, len: usize) -> Result<BufferPlan, BufferLengthError> {
    if len % 3 != 0 {
        Err(BufferLengthError { len })
    } else if m.is_identity {
        Ok(BufferPlan::Unchanged)
    } else {
        Ok(BufferPlan::MapPixels { pixels: len / 3 })
    }
}

/// A tone mapper is an identity only if no rule with a curve has a positive
/// weight; two zero-gain rules make an identity whatever the weights.
pub proof fn lemma_positive_curve_weight_is_not_identity(
    rule_0: RuleView,
    rule_1: RuleView,
    weight_0: u32,
    weight_1: u32,
)
    ensures
        rule_0 is Curve && !is_nan(weight_0) && value(weight_0) > 0 ==> !identity_condition(
            rule_0,
            rule_1,
            weight_0,
            weight_1,
        ),
        rule_1 is Curve && !is_nan(weight_1) && value(weight_1) > 0 ==> !identity_condition(
            rule_0,
            rule_1,
            weight_0,
            weight_1,
        ),
        rule_0 is ZeroGain && rule_1 is ZeroGain ==> identity_condition(rule_0, rule_1, weight_0, weight_1),
{
}

/// A tone mapper that is not an identity uses each rule for a pixel exactly
/// when that rule's own weight is positive, and an identity uses none.
pub proof fn lemma_pixel_plan_uses_positive_weights(m: ToneMapperView)
    ensures
        (pixel_plan_of(m) is Unchanged) <==> m.is_identity,
        !m.is_identity ==> pixel_plan_of(m) == (PixelPlan::Blend {
            use_rule_0: !is_nan(m.weight_0) && value(m.weight_0) > 0,
            use_rule_1: !is_nan(m.weight_1) && value(m.weight_1) > 0,
        }),
{
}

/// A tone mapper that is not an identity maps every whole pixel of a buffer
/// whose length is a multiple of 3.
pub proof fn lemma_non_identity_maps_every_pixel(m: ToneMapperView, len: usize)
    ensures
        !m.is_identity && len % 3 == 0 ==> buffer_plan_of(m, len) == Ok::<BufferPlan, BufferLengthError>(
            BufferPlan::MapPixels { pixels: len / 3 },
        ),
{
}

/// An identity tone mapper changes nothing: every pixel is returned as it is,
/// and every buffer of whole pixels is left as it is.
pub proof fn lemma_identity_changes_nothing(m: ToneMapperView, len: usize)
    requires
        m.is_identity,
    ensures
        pixel_plan_of(m) == PixelPlan::Unchanged,
        len % 3 == 0 ==> buffer_plan_of(m, len) == Ok::<BufferPlan, BufferLengthError>(BufferPlan::Unchanged),
{
}

/// A buffer is refused exactly when its length is not a multiple of 3, whatever
/// the tone mapper; an empty buffer is always accepted.
pub proof fn lemma_buffer_refused_iff_partial_pixel(m: ToneMapperView, len: usize)
    ensures
        buffer_plan_of(m, len) is Err <==> len % 3 != 0,
        buffer_plan_of(m, 0) is Ok,
{
}

impl ToneMapper {
    #[verifier::type_invariant]
    spec fn well_formed(self) -> bool {
        self.is_identity == identity_condition(self.rule_0@, self.rule_1@, self.weight_0, self.weight_1)
    }

    /// The no-op identity tone mapper: both rules have zero gain, with weights 1 and 0.
    pub fn identity() -> (r: ToneMapper)
        ensures
            r@ == (ToneMapperView {
                rule_0: RuleView::ZeroGain,
                rule_1: RuleView::ZeroGain,
                weight_0: ONE_BITS,
                weight_1: 0,
                is_identity: true,
            }),
    {
        ToneMapper {
            rule_0: ActiveRule::ZeroGain,
            rule_1: ActiveRule::ZeroGain,
            weight_0: ONE_BITS,
            weight_1: 0,
            is_identity: true,
        }
    }

    /// The tone mapper that blends `rule_0` and `rule_1` with the given weights;
    /// it is an identity exactly when `identity_condition` holds.
    pub fn blend(rule_0: ActiveRule, rule_1: ActiveRule, weight_0: u32, weight_1: u32) -> (r: ToneMapper)
        ensures
            r@ == (ToneMapperView {
                rule_0: rule_0@,
                rule_1: rule_1@,
                weight_0,
                weight_1,
                is_identity: identity_condition(rule_0@, rule_1@, weight_0, weight_1),
            }),
            rule_0 is Curve && !is_nan(weight_0) && value(weight_0) > 0 ==> !r@.is_identity,
            rule_1 is Curve && !is_nan(weight_1) && value(weight_1) > 0 ==> !r@.is_identity,
            rule_0 is ZeroGain && rule_1 is ZeroGain ==> r@.is_identity,
    {
        let zero_0 = matches!(rule_0, ActiveRule::ZeroGain);
        let zero_1 = matches!(rule_1, ActiveRule::ZeroGain);
        let is_identity = if zero_0 && zero_1 {
            true
        } else if zero_0 && is_zero(weight_1) {
            true
        } else if zero_1 && is_zero(weight_0) {
            true
        } else {
            false
        };
        ToneMapper { rule_0, rule_1, weight_0, weight_1, is_identity }
    }

    /// Whether this tone mapper is a no-op identity transform.
    pub fn is_identity(&self) -> (r: bool)
        ensures
            r == self@.is_identity,
            r == identity_condition(self@.rule_0, self@.rule_1, self@.weight_0, self@.weight_1),
            self@.rule_0 is Curve && !is_nan(self@.weight_0) && value(self@.weight_0) > 0 ==> !r,
            self@.rule_1 is Curve && !is_nan(self@.weight_1) && value(self@.weight_1) > 0 ==> !r,
    {
        proof {
            use_type_invariant(self);
        }
        self.is_identity
    }

    /// The lower rule of the bracket.
    pub fn rule_0(&self) -> (r: &ActiveRule)
        ensures
            r@ == self@.rule_0,
    {
        &self.rule_0
    }

    /// The upper rule of the bracket.
    pub fn rule_1(&self) -> (r: &ActiveRule)
        ensures
            r@ == self@.rule_1,
    {
        &self.rule_1
    }

    /// The weight of the lower rule.
    pub fn weight_0(&self) -> (r: u32)
        ensures
            r == self@.weight_0,
    {
        self.weight_0
    }

    /// The weight of the upper rule.
    pub fn weight_1(&self) -> (r: u32)
        ensures
            r == self@.weight_1,
    {
        self.weight_1
    }

    /// How a pixel is tone mapped: unchanged by an identity mapper, else each
    /// rule whose weight is positive contributes its weighted gain.
    pub fn pixel_plan(&self) -> (r: PixelPlan)
        ensures
            r == pixel_plan_of(self@),
            (r is Unchanged) <==> self@.is_identity,
            r matches PixelPlan::Blend { use_rule_0, use_rule_1 } ==> {
                &&& use_rule_0 == (!is_nan(self@.weight_0) && value(self@.weight_0) > 0)
                &&& use_rule_1 == (!is_nan(self@.weight_1) && value(self@.weight_1) > 0)
            },
    {
        if self.is_identity {
            return PixelPlan::Unchanged;
        }
        PixelPlan::Blend {
            use_rule_0: is_positive(self.weight_0),
            use_rule_1: is_positive(self.weight_1),
        }
    }

    /// How a buffer of `len` interleaved RGB values is tone mapped: an error
    /// unless `len` is a multiple of 3; else unchanged by an identity mapper,
    /// else pixel by pixel.
    pub fn buffer_plan(&self, len: usize) -> (r: Result<BufferPlan, BufferLengthError>)
        ensures
            r == buffer_plan_of(self@, len),
            len % 3 != 0 ==> r == Err::<BufferPlan, BufferLengthError>(BufferLengthError { len }),
            len % 3 == 0 && self@.is_identity ==> r == Ok::<BufferPlan, BufferLengthError>(
                BufferPlan::Unchanged,
            ),
            len % 3 == 0 && !self@.is_identity ==> r == Ok::<BufferPlan, BufferLengthError>(
                BufferPlan::MapPixels { pixels: len / 3 },
            ),
    {
        if len % 3 != 0 {
            return Err(BufferLengthError { len });
        }
        if self.is_identity {
            return Ok(BufferPlan::Unchanged);
        }
        Ok(BufferPlan::MapPixels { pixels: len / 3 })
    }
}

fn copy_values(v: &Vec<u32>) -> (r: Vec<u32>)
    ensures
        r@ == v@,
{
    let r = v.clone();
    assert(r@ =~= v@);
    r
}

impl Clone for GainCurvePoints {
    fn clone(&self) -> (r: Self)
        ensures
            r@ == self@,
    {
        GainCurvePoints { x: copy_values(&self.x), y: copy_values(&self.y), slopes: copy_values(&self.slopes) }
    }
}

impl Clone for ActiveRule {
    fn clone(&self) -> (r: Self)
        ensures
            r@ == self@,
    {
        match self {
            ActiveRule::ZeroGain => ActiveRule::ZeroGain,
            ActiveRule::Curve { mix, curve } => ActiveRule::Curve { mix: *mix, curve: curve.clone() },
        }
    }
}

impl Clone for ToneMapper {
    fn clone(&self) -> (r: Self)
        ensures
            r@ == self@,
    {
        proof {
            use_type_invariant(self);
        }
        ToneMapper {
            rule_0: self.rule_0.clone(),
            rule_1: self.rule_1.clone(),
            weight_0: self.weight_0,
            weight_1: self.weight_1,
            is_identity: self.is_identity,
        }
    }
}

/// The alternate headrooms of the rules, in order.
pub open spec fn headrooms_of(rules: Seq<ToneMappingRule>) -> Seq<u32> {
    rules.map_values(|r: ToneMappingRule| r.alternate_hdr_headroom_log2)
}

/// The two rules chosen for a target headroom.
#[derive(Debug)]
pub struct Selection {
    /// The candidate below (or at) the target, and the one above it.
    pub lower: RuleCandidate,
    pub upper: RuleCandidate,
    /// The rules the two candidates stand for.
    pub rule_0: ActiveRule,
    pub rule_1: ActiveRule,
    /// The weights are interpolated between the two headrooms (the upper one
    /// is the larger); otherwise they are 1 for `rule_0` and 0 for `rule_1`.
    pub interpolate: bool,
}

/// Chooses the rules that bracket `target` among the metadata's alternate rules
/// and the baseline rule at `baseline` (all headrooms as bit patterns): `None`
/// when there are no alternate rules, so that only the baseline is left.
pub fn select_rules(rules: &Vec<ToneMappingRule>, baseline: u32, target: u32) -> (r: Option<Selection>)
    requires
        rules.len() < usize::MAX,
        headrooms_are_numbers(headrooms_of(rules@), baseline),
    ensures
        r is None <==> rules.len() == 0,
        r matches Some(s) ==> {
            &&& is_bracket(
                candidates(headrooms_of(rules@), baseline),
                rules.len() as nat,
                s.lower,
                s.upper,
                target,
            )
            &&& s.rule_0@ == rule_of(s.lower, rules@)
            &&& s.rule_1@ == rule_of(s.upper, rules@)
            &&& s.interpolate == (value(s.lower.headroom) < value(s.upper.headroom))
        },
{
    let n = rules.len();
    let mut headrooms: Vec<u32> = Vec::new();
    let mut i: usize = 0;
    while i < n
        invariant
            n == rules.len(),
            i <= n,
            headrooms@ == headrooms_of(rules@).take(i as int),
        decreases n - i,
    {
        headrooms.push(rules[i].alternate_hdr_headroom_log2);
        proof {
            assert(headrooms@ =~= headrooms_of(rules@).take(i + 1));
        }
        i = i + 1;
    }
    proof {
        assert(headrooms@ =~= headrooms_of(rules@));
    }
    match select_bracket(&headrooms, baseline, target) {
        None => None,
        Some((lower, upper)) => {
            proof {
                let cs = candidates(headrooms@, baseline);
                let kl = choose|k: int| 0 <= k < cs.len() && cs[k] == lower;
                let ku = choose|k: int| 0 <= k < cs.len() && cs[k] == upper;
                assert(lower.rule_index matches Some(j) ==> j < n);
                assert(upper.rule_index matches Some(j) ==> j < n);
                assert(!is_nan(lower.headroom)) by {
                    if kl < n {
                        assert(!is_nan(headrooms@[kl]));
                    }
                }
                assert(!is_nan(upper.headroom)) by {
                    if ku < n {
                        assert(!is_nan(headrooms@[ku]));
                    }
                }
            }
            let rule_0 = ActiveRule::from_candidate(lower, rules);
            let rule_1 = ActiveRule::from_candidate(upper, rules);
            let interpolate = crate::binary32::lt(lower.headroom, upper.headroom);
            Some(Selection { lower, upper, rule_0, rule_1, interpolate })
        },
    }
}

} // verus!
