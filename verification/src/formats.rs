//! Sample formats and stream rates.
use vstd::prelude::*;

verus! {

/// The sample formats that streams come in.
#[derive(Clone, Copy, Debug, PartialEq, Eq, Structural)]
pub enum SampleFormat {
    I8,
    I16,
    I32,
    I64,
    U8,
    U16,
    U32,
    U64,
    F32,
    F64,
    /// A format that the engine does not know.
    Other,
}

/// The floating-point width in which a step is computed.
#[derive(Clone, Copy, Debug, PartialEq, Eq, Structural)]
pub enum Width {
    Single,
    Double,
}

/// How a captured sample becomes a single-precision sample between minus one and one.
#[derive(Clone, Copy, Debug, PartialEq, Eq, Structural)]
pub enum Decode {
    /// It is one already.
    Copy,
    /// It is rounded to single precision.
    Narrow,
    /// `(sample - origin) / full_scale`, each step in its width.
    Scale { origin: u64, full_scale: u64, subtract_in: Width, divide_in: Width },
}

/// How a limited single-precision sample becomes an output sample.
#[derive(Clone, Copy, Debug, PartialEq, Eq, Structural)]
pub enum Encode {
    /// It is one already.
    Copy,
    /// It is widened to double precision.
    Widen,
    /// `sample * full_scale`, cut off.
    Signed { full_scale: u64 },
    /// `(sample / 2 + 1 / 2) * full_scale`, cut off.
    Unsigned { full_scale: u64 },
}

impl SampleFormat {
    /// Half the number of values of an integer format; none for the others.
    pub open spec fn half_range(self) -> Option<int> {
        match self {
            SampleFormat::I8 | SampleFormat::U8 => Some(i8::MAX + 1),
            SampleFormat::I16 | SampleFormat::U16 => Some(i16::MAX + 1),
            SampleFormat::I32 | SampleFormat::U32 => Some(i32::MAX + 1),
            SampleFormat::I64 | SampleFormat::U64 => Some(i64::MAX + 1),
            _ => None,
        }
    }

    /// The samples are integers of 64 bits.
    pub open spec fn is_long(self) -> bool {
        self is I64 || self is U64
    }

    /// The samples are integers without a sign.
    pub open spec fn is_unsigned(self) -> bool {
        self is U8 || self is U16 || self is U32 || self is U64
    }

    /// The rule for a captured sample: a signed integer is divided by the largest value of its
    /// type, an unsigned one by the middle of its range after that was subtracted. Formats that
    /// do not fit into single precision are taken in double precision as far as needed.
    pub open spec fn decoding(self) -> Option<Decode> {
        match (self, self.half_range()) {
            (SampleFormat::F32, _) => Some(Decode::Copy),
            (SampleFormat::F64, _) => Some(Decode::Narrow),
            (_, Some(half)) => {
                let unsigned = self.is_unsigned();
                Some(
                    Decode::Scale {
                        origin: if unsigned {
                            half as u64
                        } else {
                            0
                        },
                        full_scale: if unsigned {
                            half as u64
                        } else {
                            (half - 1) as u64
                        },
                        subtract_in: if self.is_long() || self is U32 {
                            Width::Double
                        } else {
                            Width::Single
                        },
                        divide_in: if self.is_long() {
                            Width::Double
                        } else {
                            Width::Single
                        },
                    },
                )
            },
            _ => None,
        }
    }

    /// The rule for an output sample, for the formats that can be played: the limited range is
    /// spread over the positive and negative values of a signed type, or over the whole range of
    /// an unsigned one.
    pub open spec fn encoding(self) -> Option<Encode> {
        match self {
            SampleFormat::F32 => Some(Encode::Copy),
            SampleFormat::F64 => Some(Encode::Widen),
            SampleFormat::I16 => Some(Encode::Signed { full_scale: i16::MAX as u64 }),
            SampleFormat::I32 => Some(Encode::Signed { full_scale: i32::MAX as u64 }),
            SampleFormat::U8 => Some(Encode::Unsigned { full_scale: u8::MAX as u64 }),
            SampleFormat::U16 => Some(Encode::Unsigned { full_scale: u16::MAX as u64 }),
            _ => None,
        }
    }

    /// The rule for a captured sample, or `None` where the format cannot be captured.
    pub fn decode(&self) -> (rule: Option<Decode>)
        ensures
            rule == self.decoding(),
    {
        let (origin, full_scale): (u64, u64) = match *self {
            SampleFormat::F32 => {
                return Some(Decode::Copy);
            },
            SampleFormat::F64 => {
                return Some(Decode::Narrow);
            },
            SampleFormat::Other => {
                return None;
            },
            SampleFormat::I8 => (0, 0x7f),
            SampleFormat::I16 => (0, 0x7fff),
            SampleFormat::I32 => (0, 0x7fff_ffff),
            SampleFormat::I64 => (0, 0x7fff_ffff_ffff_ffff),
            SampleFormat::U8 => (0x80, 0x80),
            SampleFormat::U16 => (0x8000, 0x8000),
            SampleFormat::U32 => (0x8000_0000, 0x8000_0000),
            SampleFormat::U64 => (0x8000_0000_0000_0000, 0x8000_0000_0000_0000),
        };
        let long = *self == SampleFormat::I64 || *self == SampleFormat::U64;
        let subtract_in = if long || *self == SampleFormat::U32 {
            Width::Double
        } else {
            Width::Single
        };
        let divide_in = if long {
            Width::Double
        } else {
            Width::Single
        };
        Some(Decode::Scale { origin, full_scale, subtract_in, divide_in })
    }

    /// The rule for an output sample, or `None` where the format cannot be played.
    pub fn encode(&self) -> (rule: Option<Encode>)
        ensures
            rule == self.encoding(),
    {
        match *self {
            SampleFormat::F32 => Some(Encode::Copy),
            SampleFormat::F64 => Some(Encode::Widen),
            SampleFormat::I16 => Some(Encode::Signed { full_scale: 0x7fff }),
            SampleFormat::I32 => Some(Encode::Signed { full_scale: 0x7fff_ffff }),
            SampleFormat::U8 => Some(Encode::Unsigned { full_scale: 0xff }),
            SampleFormat::U16 => Some(Encode::Unsigned { full_scale: 0xffff }),
            _ => None,
        }
    }
}

/// Every format but an unknown one can be captured.
pub proof fn all_known_formats_are_captured(format: SampleFormat)
    ensures
        format.decoding() is None <==> format is Other,
{
}

/// Every format that can be played can be captured too.
pub proof fn what_is_played_can_be_captured(format: SampleFormat)
    requires
        format.encoding() is Some,
    ensures
        format.decoding() is Some,
{
}

/// The sample rates that an input configuration supports, both ends included.
#[derive(Clone, Copy, Debug, PartialEq, Eq, Structural)]
pub struct RateRange {
    pub min: u32,
    pub max: u32,
}

impl RateRange {
    /// The rate lies in the range.
    pub open spec fn covers(self, rate: u32) -> bool {
        self.min <= rate <= self.max
    }
}

/// The first input configuration that runs at the output's rate; `None` means that the device's
/// default configuration has to do.
pub fn choose_input_config(ranges: &Vec<RateRange>, rate: u32) -> (choice: Option<usize>)
    ensures
        match choice {
            Some(at) => {
                &&& at < ranges.len()
                &&& ranges@[at as int].covers(rate)
                &&& forall|i: int| 0 <= i < at ==> !(#[trigger] ranges@[i]).covers(rate)
            },
            None => forall|i: int| 0 <= i < ranges.len() ==> !(#[trigger] ranges@[i]).covers(rate),
        },
{
    let mut at: usize = 0;
    while at < ranges.len()
        invariant
            at <= ranges.len(),
            forall|i: int| 0 <= i < at ==> !(#[trigger] ranges@[i]).covers(rate),
        decreases ranges.len() - at,
    {
        if ranges[at].min <= rate && ranges[at].max >= rate {
            return Some(at);
        }
        at += 1;
    }
    None
}

/// The spacing of the single-precision numbers around the integer `n`, for `n` a sample rate: one
/// as long as `n` fits in the 24 bits of a significand, and twice as much for each further bit.
pub open spec fn single_spacing(n: nat) -> nat
    decreases n,
{
    if n < 0x100_0000 {
        1
    } else {
        2 * single_spacing(n / 2)
    }
}

/// The single-precision number nearest to the integer `n`; of two that are equally near, the one
/// with the even significand.
pub open spec fn nearest_single(n: nat) -> nat {
    let spacing = single_spacing(n);
    let below = n / spacing;
    let over = n % spacing;
    if n < 0x100_0000 {
        n
    } else if 2 * over < spacing || (2 * over == spacing && below % 2 == 0) {
        below * spacing
    } else {
        (below + 1) * spacing
    }
}

/// The number of whole frames in a quarter of a second, for a rate held in single precision.
pub open spec fn quarter_second(rate: nat) -> nat {
    nearest_single(rate) / 4
}

proof fn lemma_halve_quotient(n: nat, spacing: nat)
    requires
        0 < spacing,
    ensures
        n / (spacing * 2) == (n / spacing) / 2,
{
    vstd::arithmetic::div_mod::lemma_div_denominator(n as int, spacing as int, 2);
}

/// The capacity of the frame queue for a stream of `rate` frames per second.
pub fn quarter_second_frames(rate: u32) -> (frames: usize)
    ensures
        frames == quarter_second(rate as nat),
{
    let mut below: u64 = rate as u64;
    let mut spacing: u64 = 1;
    while below >= 0x100_0000
        invariant
            0 < spacing,
            below == rate as nat / spacing as nat,
            single_spacing(rate as nat) == spacing * single_spacing(below as nat),
            below * spacing <= rate,
            spacing <= 0x200,
            below <= rate,
        decreases below,
    {
        proof {
            lemma_halve_quotient(rate as nat, spacing as nat);
            assert(spacing <= 0x100) by (nonlinear_arith)
                requires
                    below * spacing <= rate,
                    below >= 0x100_0000,
                    rate <= 0xffff_ffff,
            ;
            let half = below as nat / 2;
            assert(half * (spacing * 2) <= below * spacing) by (nonlinear_arith)
                requires
                    half * 2 <= below,
                    0 < spacing,
            ;
            assert(spacing * single_spacing(below as nat) == (spacing * 2) * single_spacing(half))
                by (nonlinear_arith)
                requires
                    single_spacing(below as nat) == 2 * single_spacing(half),
            ;
        }
        below = below / 2;
        spacing = spacing * 2;
    }
    proof {
        assert(single_spacing(below as nat) == 1);
        assert(spacing * 1 == spacing);
        assert((below + 1) * spacing == below * spacing + spacing) by (nonlinear_arith);
        vstd::arithmetic::div_mod::lemma_fundamental_div_mod(rate as int, spacing as int);
        assert(spacing * below == below * spacing) by (nonlinear_arith);
    }
    let over: u64 = rate as u64 - below * spacing;
    assert(over == rate as nat % spacing as nat);
    let nearest: u64 = if 2 * over < spacing || (2 * over == spacing && below % 2 == 0) {
        below * spacing
    } else {
        (below + 1) * spacing
    };
    (nearest / 4) as usize
}

/// A rate below 2^24 is held exactly, so the queue then has a fourth of the rate, rounded down.
pub proof fn common_rates_are_exact(rate: nat)
    requires
        rate < 0x100_0000,
    ensures
        nearest_single(rate) == rate,
        quarter_second(rate) == rate / 4,
{
}

/// No rate is off by more than half a spacing when it is held in single precision.
pub proof fn rates_are_rounded_to_nearest(rate: nat)
    ensures
        0 < single_spacing(rate),
        2 * (nearest_single(rate) - rate) <= single_spacing(rate),
        2 * (rate - nearest_single(rate)) <= single_spacing(rate),
        nearest_single(rate) % single_spacing(rate) == 0,
{
    lemma_spacing_positive(rate);
    let spacing = single_spacing(rate);
    let below = rate / spacing;
    vstd::arithmetic::div_mod::lemma_fundamental_div_mod(rate as int, spacing as int);
    assert(spacing * below == below * spacing) by (nonlinear_arith);
    assert((below + 1) * spacing == below * spacing + spacing) by (nonlinear_arith);
    vstd::arithmetic::div_mod::lemma_mod_multiples_basic(below as int, spacing as int);
    vstd::arithmetic::div_mod::lemma_mod_multiples_basic(below as int + 1, spacing as int);
}

proof fn lemma_spacing_positive(n: nat)
    ensures
        0 < single_spacing(n),
    decreases n,
{
    if n >= 0x100_0000 {
        lemma_spacing_positive(n / 2);
    }
}

/// A range of rates covers both of its ends and all that lies between them, and nothing else.
pub proof fn ranges_have_both_their_ends(range: RateRange, rate: u32)
    ensures
        range.min <= range.max ==> range.covers(range.min) && range.covers(range.max),
        rate < range.min ==> !range.covers(rate),
        rate > range.max ==> !range.covers(rate),
        !range.covers(rate) ==> rate < range.min || rate > range.max,
{
}

/// What is captured from a format and what is played in it use the same range: as far up as a signed
/// format goes, and from one end to the other of an unsigned one.
pub proof fn capture_and_playback_share_the_range(format: SampleFormat)
    requires
        format.encoding() is Some,
    ensures
        match (format.encoding()->0, format.decoding()->0) {
            (Encode::Copy, decode) => decode is Copy && format is F32,
            (Encode::Widen, decode) => decode is Narrow && format is F64,
            (
                Encode::Signed { full_scale },
                Decode::Scale { origin, full_scale: captured, .. },
            ) => !format.is_unsigned() && origin == 0 && captured == full_scale,
            (
                Encode::Unsigned { full_scale },
                Decode::Scale { origin, full_scale: captured, .. },
            ) => format.is_unsigned() && origin == captured && 2 * captured == full_scale + 1,
            _ => false,
        },
{
}

/// The middle of a range is as far from both its ends: a signed format reaches one step less far up
/// than down, and an unsigned one starts at zero.
pub proof fn ranges_are_halved(format: SampleFormat)
    requires
        format.half_range() is Some,
    ensures
        format.decoding() matches Some(Decode::Scale { origin, full_scale, .. }) && (
        if format.is_unsigned() {
            origin == format.half_range()->0 && full_scale == origin
        } else {
            origin == 0 && full_scale + 1 == format.half_range()->0
        }),
        2 * format.half_range()->0 == match format {
            SampleFormat::I8 | SampleFormat::U8 => u8::MAX + 1,
            SampleFormat::I16 | SampleFormat::U16 => u16::MAX + 1,
            SampleFormat::I32 | SampleFormat::U32 => u32::MAX + 1,
            _ => u64::MAX + 1,
        },
{
}

/// The queue holds the whole frames of a quarter of a second and not one frame more.
pub proof fn the_queue_holds_a_quarter_second(rate: nat)
    ensures
        4 * quarter_second(rate) <= nearest_single(rate) < 4 * (quarter_second(rate) + 1),
{
}

/// A rate is held with a significand of 24 bits, and with all of them once it does not fit exactly.
pub proof fn significands_have_twenty_four_bits(rate: nat)
    ensures
        rate < 0x100_0000 * single_spacing(rate),
        single_spacing(rate) > 1 ==> rate >= 0x80_0000 * single_spacing(rate),
        rate >= 0x80_0000 ==> single_spacing(2 * rate) == 2 * single_spacing(rate),
    decreases rate,
{
    if rate >= 0x100_0000 {
        significands_have_twenty_four_bits(rate / 2);
    }
}

/// A rate that lies in the middle between two numbers is held as the one with the even significand.
pub proof fn ties_go_to_the_even_number(rate: nat)
    requires
        2 * (rate % single_spacing(rate)) == single_spacing(rate),
        rate >= 0x100_0000,
    ensures
        exists|half: nat| nearest_single(rate) == #[trigger] (2 * half) * single_spacing(rate),
{
    lemma_spacing_positive(rate);
    let spacing = single_spacing(rate);
    let below: nat = rate / spacing;
    let even: nat = if below % 2 == 0 {
        below
    } else {
        below + 1
    };
    let half: nat = even / 2;
    assert(even % 2 == 0);
    assert(2 * half == even);
    assert(nearest_single(rate) == (2 * half) * spacing);
}

} // verus!
