//! Easing curves by kind: which curve an easing is, without its parameters.
//! The kind decides an easing's canonical name and whether the GPU tween
//! shader implements it.
use vstd::prelude::*;

verus! {

/// The kind of an easing curve. The first thirty-one are the classic
/// parameterless curves, in shader order; the rest carry parameters.
#[derive(Clone, Copy, Debug, PartialEq, Eq, Structural)]
pub enum EasingKind {
    /// Constant velocity — no acceleration.
    Linear,
    /// Quadratic ease-in.
    EaseInQuad,
    /// Quadratic ease-out.
    EaseOutQuad,
    /// Quadratic ease-in-out.
    EaseInOutQuad,
    /// Cubic ease-in.
    EaseInCubic,
    /// Cubic ease-out.
    EaseOutCubic,
    /// Cubic ease-in-out.
    EaseInOutCubic,
    /// Quartic ease-in.
    EaseInQuart,
    /// Quartic ease-out.
    EaseOutQuart,
    /// Quartic ease-in-out.
    EaseInOutQuart,
    /// Quintic ease-in.
    EaseInQuint,
    /// Quintic ease-out.
    EaseOutQuint,
    /// Quintic ease-in-out.
    EaseInOutQuint,
    /// Sinusoidal ease-in.
    EaseInSine,
    /// Sinusoidal ease-out.
    EaseOutSine,
    /// Sinusoidal ease-in-out.
    EaseInOutSine,
    /// Exponential ease-in.
    EaseInExpo,
    /// Exponential ease-out.
    EaseOutExpo,
    /// Exponential ease-in-out.
    EaseInOutExpo,
    /// Circular ease-in.
    EaseInCirc,
    /// Circular ease-out.
    EaseOutCirc,
    /// Circular ease-in-out.
    EaseInOutCirc,
    /// Back (overshoot) ease-in.
    EaseInBack,
    /// Back (overshoot) ease-out.
    EaseOutBack,
    /// Back (overshoot) ease-in-out.
    EaseInOutBack,
    /// Elastic ease-in.
    EaseInElastic,
    /// Elastic ease-out.
    EaseOutElastic,
    /// Elastic ease-in-out.
    EaseInOutElastic,
    /// Bounce ease-in.
    EaseInBounce,
    /// Bounce ease-out.
    EaseOutBounce,
    /// Bounce ease-in-out.
    EaseInOutBounce,
    /// A CSS cubic Bézier curve.
    CubicBezier,
    /// A staircase of equal steps.
    Steps,
    /// Linear progress with deterministic jitter.
    RoughEase,
    /// Slow in the middle, fast at both ends.
    SlowMo,
    /// Oscillation around linear progress.
    Wiggle,
    /// A bounce of adjustable strength.
    CustomBounce,
    /// Exponential interpolation between two scales.
    ExpoScale,
    /// A caller-supplied function.
    Custom,
}

/// The classic curves in the order the GPU shader numbers them.
pub open spec fn classic_order() -> Seq<EasingKind> {
    seq![
        EasingKind::Linear,
        EasingKind::EaseInQuad,
        EasingKind::EaseOutQuad,
        EasingKind::EaseInOutQuad,
        EasingKind::EaseInCubic,
        EasingKind::EaseOutCubic,
        EasingKind::EaseInOutCubic,
        EasingKind::EaseInQuart,
        EasingKind::EaseOutQuart,
        EasingKind::EaseInOutQuart,
        EasingKind::EaseInQuint,
        EasingKind::EaseOutQuint,
        EasingKind::EaseInOutQuint,
        EasingKind::EaseInSine,
        EasingKind::EaseOutSine,
        EasingKind::EaseInOutSine,
        EasingKind::EaseInExpo,
        EasingKind::EaseOutExpo,
        EasingKind::EaseInOutExpo,
        EasingKind::EaseInCirc,
        EasingKind::EaseOutCirc,
        EasingKind::EaseInOutCirc,
        EasingKind::EaseInBack,
        EasingKind::EaseOutBack,
        EasingKind::EaseInOutBack,
        EasingKind::EaseInElastic,
        EasingKind::EaseOutElastic,
        EasingKind::EaseInOutElastic,
        EasingKind::EaseInBounce,
        EasingKind::EaseOutBounce,
        EasingKind::EaseInOutBounce,
    ]
}

/// Whether the kind is one of the classic parameterless curves.
pub open spec fn is_classic(kind: EasingKind) -> bool {
    !(kind is CubicBezier || kind is Steps || kind is RoughEase || kind is SlowMo || kind is Wiggle || kind is CustomBounce || kind is ExpoScale || kind is Custom)
}

/// The canonical name of a kind.
pub open spec fn kind_name(kind: EasingKind) -> Seq<char> {
    match kind {
        EasingKind::Linear => "linear"@,
        EasingKind::EaseInQuad => "easeInQuad"@,
        EasingKind::EaseOutQuad => "easeOutQuad"@,
        EasingKind::EaseInOutQuad => "easeInOutQuad"@,
        EasingKind::EaseInCubic => "easeInCubic"@,
        EasingKind::EaseOutCubic => "easeOutCubic"@,
        EasingKind::EaseInOutCubic => "easeInOutCubic"@,
        EasingKind::EaseInQuart => "easeInQuart"@,
        EasingKind::EaseOutQuart => "easeOutQuart"@,
        EasingKind::EaseInOutQuart => "easeInOutQuart"@,
        EasingKind::EaseInQuint => "easeInQuint"@,
        EasingKind::EaseOutQuint => "easeOutQuint"@,
        EasingKind::EaseInOutQuint => "easeInOutQuint"@,
        EasingKind::EaseInSine => "easeInSine"@,
        EasingKind::EaseOutSine => "easeOutSine"@,
        EasingKind::EaseInOutSine => "easeInOutSine"@,
        EasingKind::EaseInExpo => "easeInExpo"@,
        EasingKind::EaseOutExpo => "easeOutExpo"@,
        EasingKind::EaseInOutExpo => "easeInOutExpo"@,
        EasingKind::EaseInCirc => "easeInCirc"@,
        EasingKind::EaseOutCirc => "easeOutCirc"@,
        EasingKind::EaseInOutCirc => "easeInOutCirc"@,
        EasingKind::EaseInBack => "easeInBack"@,
        EasingKind::EaseOutBack => "easeOutBack"@,
        EasingKind::EaseInOutBack => "easeInOutBack"@,
        EasingKind::EaseInElastic => "easeInElastic"@,
        EasingKind::EaseOutElastic => "easeOutElastic"@,
        EasingKind::EaseInOutElastic => "easeInOutElastic"@,
        EasingKind::EaseInBounce => "easeInBounce"@,
        EasingKind::EaseOutBounce => "easeOutBounce"@,
        EasingKind::EaseInOutBounce => "easeInOutBounce"@,
        EasingKind::CubicBezier => "cubicBezier"@,
        EasingKind::Steps => "steps"@,
        EasingKind::RoughEase => "roughEase"@,
        EasingKind::SlowMo => "slowMo"@,
        EasingKind::Wiggle => "wiggle"@,
        EasingKind::CustomBounce => "customBounce"@,
        EasingKind::ExpoScale => "expoScale"@,
        EasingKind::Custom => "custom"@,
    }
}

/// The shader's number for a classic curve; `None` for curves the shader
/// lacks.
pub fn classic_easing_id(kind: EasingKind) -> (id: Option<u32>)
    ensures
        id is None <==> !is_classic(kind),
        id matches Some(i) ==> i < classic_order().len() && classic_order()[i as int] == kind,
{
    match kind {
        EasingKind::Linear => Some(0),
        EasingKind::EaseInQuad => Some(1),
        EasingKind::EaseOutQuad => Some(2),
        EasingKind::EaseInOutQuad => Some(3),
        EasingKind::EaseInCubic => Some(4),
        EasingKind::EaseOutCubic => Some(5),
        EasingKind::EaseInOutCubic => Some(6),
        EasingKind::EaseInQuart => Some(7),
        EasingKind::EaseOutQuart => Some(8),
        EasingKind::EaseInOutQuart => Some(9),
        EasingKind::EaseInQuint => Some(10),
        EasingKind::EaseOutQuint => Some(11),
        EasingKind::EaseInOutQuint => Some(12),
        EasingKind::EaseInSine => Some(13),
        EasingKind::EaseOutSine => Some(14),
        EasingKind::EaseInOutSine => Some(15),
        EasingKind::EaseInExpo => Some(16),
        EasingKind::EaseOutExpo => Some(17),
        EasingKind::EaseInOutExpo => Some(18),
        EasingKind::EaseInCirc => Some(19),
        EasingKind::EaseOutCirc => Some(20),
        EasingKind::EaseInOutCirc => Some(21),
        EasingKind::EaseInBack => Some(22),
        EasingKind::EaseOutBack => Some(23),
        EasingKind::EaseInOutBack => Some(24),
        EasingKind::EaseInElastic => Some(25),
        EasingKind::EaseOutElastic => Some(26),
        EasingKind::EaseInOutElastic => Some(27),
        EasingKind::EaseInBounce => Some(28),
        EasingKind::EaseOutBounce => Some(29),
        EasingKind::EaseInOutBounce => Some(30),
        _ => None,
    }
}

/// The canonical name of an easing kind.
pub fn easing_name(kind: EasingKind) -> (name: &'static str)
    ensures
        name@ == kind_name(kind),
{
    match kind {
        EasingKind::Linear => "linear",
        EasingKind::EaseInQuad => "easeInQuad",
        EasingKind::EaseOutQuad => "easeOutQuad",
        EasingKind::EaseInOutQuad => "easeInOutQuad",
        EasingKind::EaseInCubic => "easeInCubic",
        EasingKind::EaseOutCubic => "easeOutCubic",
        EasingKind::EaseInOutCubic => "easeInOutCubic",
        EasingKind::EaseInQuart => "easeInQuart",
        EasingKind::EaseOutQuart => "easeOutQuart",
        EasingKind::EaseInOutQuart => "easeInOutQuart",
        EasingKind::EaseInQuint => "easeInQuint",
        EasingKind::EaseOutQuint => "easeOutQuint",
        EasingKind::EaseInOutQuint => "easeInOutQuint",
        EasingKind::EaseInSine => "easeInSine",
        EasingKind::EaseOutSine => "easeOutSine",
        EasingKind::EaseInOutSine => "easeInOutSine",
        EasingKind::EaseInExpo => "easeInExpo",
        EasingKind::EaseOutExpo => "easeOutExpo",
        EasingKind::EaseInOutExpo => "easeInOutExpo",
        EasingKind::EaseInCirc => "easeInCirc",
        EasingKind::EaseOutCirc => "easeOutCirc",
        EasingKind::EaseInOutCirc => "easeInOutCirc",
        EasingKind::EaseInBack => "easeInBack",
        EasingKind::EaseOutBack => "easeOutBack",
        EasingKind::EaseInOutBack => "easeInOutBack",
        EasingKind::EaseInElastic => "easeInElastic",
        EasingKind::EaseOutElastic => "easeOutElastic",
        EasingKind::EaseInOutElastic => "easeInOutElastic",
        EasingKind::EaseInBounce => "easeInBounce",
        EasingKind::EaseOutBounce => "easeOutBounce",
        EasingKind::EaseInOutBounce => "easeInOutBounce",
        EasingKind::CubicBezier => "cubicBezier",
        EasingKind::Steps => "steps",
        EasingKind::RoughEase => "roughEase",
        EasingKind::SlowMo => "slowMo",
        EasingKind::Wiggle => "wiggle",
        EasingKind::CustomBounce => "customBounce",
        EasingKind::ExpoScale => "expoScale",
        EasingKind::Custom => "custom",
    }
}

/// The shader numbers the classic curves one to one: no two numbers below
/// thirty-one belong to the same curve, and each belongs to a classic curve.
pub proof fn law_classic_ids_are_distinct(i: int, j: int)
    requires
        0 <= i < j < classic_order().len(),
    ensures
        classic_order()[i] != classic_order()[j],
        is_classic(classic_order()[i]),
{
}

} // verus!
