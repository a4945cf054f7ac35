//! Mixing the audio of several inputs into the audio of one output.

use vstd::prelude::*;

verus! {

/// Full volume: volumes are fractions of it, in 65536ths.
pub const VOLUME_ONE: u32 = 65536;

/// How the audio of several inputs becomes one signal.
#[derive(Clone, Copy, Debug, PartialEq, Eq, Structural)]
pub enum MixingStrategy {
    /// Add the signals up and cut off what is out of range.
    SumClip,
    /// Add the signals up and scale the sum down where it is out of range.
    SumScale,
}

/// How many channels a signal has.
#[derive(Clone, Copy, Debug, PartialEq, Eq, Structural)]
pub enum AudioChannels {
    Mono,
    Stereo,
}

/// One input of a mix and how loud it is.
#[derive(Debug)]
pub struct InputParams {
    pub input_id: String,
    /// Between nothing and [`VOLUME_ONE`].
    pub volume: u32,
}

/// Mathematical value of [`InputParams`].
pub struct InputParamsView {
    pub input_id: Seq<char>,
    pub volume: int,
}

impl View for InputParams {
    type V = InputParamsView;

    open spec fn view(&self) -> InputParamsView {
        InputParamsView { input_id: self.input_id@, volume: self.volume as int }
    }
}

/// The inputs of an output's audio and how they are combined.
#[derive(Debug)]
pub struct AudioMixingParams {
    pub inputs: Vec<InputParams>,
    pub mixing_strategy: MixingStrategy,
}

/// Mathematical value of [`AudioMixingParams`].
pub struct AudioMixingParamsView {
    pub inputs: Seq<InputParamsView>,
    pub mixing_strategy: MixingStrategy,
}

impl View for AudioMixingParams {
    type V = AudioMixingParamsView;

    open spec fn view(&self) -> AudioMixingParamsView {
        AudioMixingParamsView {
            inputs: Seq::new(self.inputs.len() as nat, |i: int| self.inputs[i]@),
            mixing_strategy: self.mixing_strategy,
        }
    }
}

impl AudioMixingParams {
    /// Every volume is between nothing and full.
    pub open spec fn wf(&self) -> bool {
        forall|i: int|
            0 <= i < self.inputs.len() ==> (#[trigger] self.inputs[i]).volume <= VOLUME_ONE
    }

    /// Whether every volume is between nothing and full.
    pub fn is_valid(&self) -> (res: bool)
        ensures
            res == self.wf(),
    {
        let mut i: usize = 0;
        while i < self.inputs.len()
            invariant
                i <= self.inputs.len(),
                forall|j: int| 0 <= j < i ==> (#[trigger] self.inputs[j]).volume <= VOLUME_ONE,
            decreases self.inputs.len() - i,
        {
            if self.inputs[i].volume > VOLUME_ONE {
                return false;
            }
            i += 1;
        }
        true
    }
}

/// The samples that an input has for one tick.
#[derive(Debug)]
pub struct InputSamples {
    pub input_id: String,
    pub samples: Vec<i16>,
}

/// Mathematical value of [`InputSamples`].
pub struct InputSamplesView {
    pub input_id: Seq<char>,
    pub samples: Seq<i16>,
}

impl View for InputSamples {
    type V = InputSamplesView;

    open spec fn view(&self) -> InputSamplesView {
        InputSamplesView { input_id: self.input_id@, samples: self.samples@ }
    }
}

/// The views of a list of samples, one for one.
pub open spec fn samples_views(available: Seq<InputSamples>) -> Seq<InputSamplesView> {
    Seq::new(available.len(), |i: int| available[i]@)
}

/// The largest sample a mix may hold.
pub const SAMPLE_MAX: i16 = 32767;

/// The smallest sample a mix may hold.
pub const SAMPLE_MIN: i16 = -32768;

/// `a / b` rounded towards zero, for a positive `b`.
pub open spec fn div_towards_zero(a: int, b: int) -> int {
    if a >= 0 {
        a / b
    } else {
        -((-a) / b)
    }
}

/// A sample at the given volume.
pub open spec fn scaled(sample: int, volume: int) -> int {
    div_towards_zero(sample * volume, VOLUME_ONE as int)
}

/// The samples of the first of `available` that belongs to `input_id`, from
/// position `from` on.
pub open spec fn samples_of(available: Seq<InputSamplesView>, input_id: Seq<char>, from: int) -> Option<
    Seq<i16>,
>
    decreases available.len() - from,
{
    if from < 0 || from >= available.len() {
        None
    } else if available[from].input_id == input_id {
        Some(available[from].samples)
    } else {
        samples_of(available, input_id, from + 1)
    }
}

/// What an input adds to position `k` of the mix: its sample there at its
/// volume, or silence where it has no sample.
pub open spec fn contribution(input: InputParamsView, available: Seq<InputSamplesView>, k: int) -> int {
    match samples_of(available, input.input_id, 0) {
        Some(samples) => if 0 <= k < samples.len() {
            scaled(samples[k] as int, input.volume)
        } else {
            0
        },
        None => 0,
    }
}

/// What the first `n` inputs add up to at position `k`.
pub open spec fn sum_at(
    inputs: Seq<InputParamsView>,
    available: Seq<InputSamplesView>,
    k: int,
    n: int,
) -> int
    decreases n,
{
    if n <= 0 {
        0
    } else {
        sum_at(inputs, available, k, n - 1) + contribution(inputs[n - 1], available, k)
    }
}

/// The distance of `x` from zero.
pub open spec fn magnitude(x: int) -> int {
    if x >= 0 {
        x
    } else {
        -x
    }
}

/// The largest magnitude among the sums of the first `n` positions.
pub open spec fn peak(inputs: Seq<InputParamsView>, available: Seq<InputSamplesView>, n: int) -> int
    decreases n,
{
    if n <= 0 {
        0
    } else {
        let before = peak(inputs, available, n - 1);
        let here = magnitude(sum_at(inputs, available, n - 1, inputs.len() as int));
        if here > before {
            here
        } else {
            before
        }
    }
}

/// A sum cut off at the ends of the sample range.
pub open spec fn clipped(sum: int) -> int {
    if sum > SAMPLE_MAX {
        SAMPLE_MAX as int
    } else if sum < SAMPLE_MIN {
        SAMPLE_MIN as int
    } else {
        sum
    }
}

/// A sum scaled so that a peak that is out of range comes to lie at the
/// end of the range; unchanged where the peak is in range.
pub open spec fn rescaled(sum: int, peak: int) -> int {
    if peak <= SAMPLE_MAX {
        sum
    } else {
        div_towards_zero(sum * SAMPLE_MAX, peak)
    }
}

/// The sample at position `k` of a mix of `len` samples.
pub open spec fn mixed_sample(
    params: AudioMixingParamsView,
    available: Seq<InputSamplesView>,
    len: int,
    k: int,
) -> int {
    let sum = sum_at(params.inputs, available, k, params.inputs.len() as int);
    match params.mixing_strategy {
        MixingStrategy::SumClip => clipped(sum),
        MixingStrategy::SumScale => rescaled(sum, peak(params.inputs, available, len)),
    }
}

/// A sample at a volume of at most full is no further from zero than the
/// sample.
pub proof fn lemma_scaled_bounded(sample: int, volume: int)
    requires
        SAMPLE_MIN <= sample <= SAMPLE_MAX,
        0 <= volume <= VOLUME_ONE,
    ensures
        magnitude(scaled(sample, volume)) <= magnitude(sample),
        magnitude(scaled(sample, volume)) <= 32768,
{
    let m = magnitude(sample);
    assert(m * volume <= m * 65536) by (nonlinear_arith)
        requires
            0 <= m,
            0 <= volume <= 65536,
    ;
    assert(0 <= m * volume) by (nonlinear_arith)
        requires
            0 <= m,
            0 <= volume,
    ;
    assert((m * volume) / 65536 <= m) by (nonlinear_arith)
        requires
            0 <= m * volume <= m * 65536,
    ;
    assert(0 <= (m * volume) / 65536) by (nonlinear_arith)
        requires
            0 <= m * volume,
    ;
    if sample >= 0 {
        assert(sample * volume == m * volume);
    } else {
        assert(-(sample * volume) == m * volume) by (nonlinear_arith)
            requires
                m == -sample,
        ;
        if sample * volume >= 0 {
            assert(m * volume == 0);
            assert(sample * volume == 0);
        }
    }
}

/// The sum of `n` inputs is at most `n` full samples from zero.
pub proof fn lemma_sum_bounded(
    params: AudioMixingParams,
    available: Seq<InputSamplesView>,
    k: int,
    n: int,
)
    requires
        params.wf(),
        0 <= n <= params.inputs.len(),
    ensures
        magnitude(sum_at(params@.inputs, available, k, n)) <= 32768 * n,
    decreases n,
{
    if n > 0 {
        lemma_sum_bounded(params, available, k, n - 1);
        let input = params@.inputs[n - 1];
        assert(input == params.inputs[n - 1]@);
        assert(0 <= input.volume <= VOLUME_ONE);
        match samples_of(available, input.input_id, 0) {
            Some(samples) => {
                if 0 <= k < samples.len() {
                    lemma_scaled_bounded(samples[k] as int, input.volume);
                }
            },
            None => {},
        }
    }
}

/// No sum among the first `n` positions is further from zero than the
/// peak.
pub proof fn lemma_peak_bounds(
    inputs: Seq<InputParamsView>,
    available: Seq<InputSamplesView>,
    n: int,
    k: int,
)
    requires
        0 <= k < n,
    ensures
        magnitude(sum_at(inputs, available, k, inputs.len() as int)) <= peak(inputs, available, n),
        0 <= peak(inputs, available, n),
    decreases n,
{
    if k < n - 1 {
        lemma_peak_bounds(inputs, available, n - 1, k);
    } else if n - 1 > 0 {
        lemma_peak_bounds(inputs, available, n - 1, 0);
    }
}

/// Scaling by the peak keeps every sum in the sample range, and leaves a
/// sum as it is where the peak is in range.
pub proof fn lemma_rescaled_in_range(sum: int, peak: int)
    requires
        magnitude(sum) <= peak,
    ensures
        -(SAMPLE_MAX as int) <= rescaled(sum, peak) <= SAMPLE_MAX,
        peak <= SAMPLE_MAX ==> rescaled(sum, peak) == sum,
{
    if peak > SAMPLE_MAX {
        let m = magnitude(sum);
        assert(m * 32767 <= peak * 32767) by (nonlinear_arith)
            requires
                0 <= m <= peak,
        ;
        assert((m * 32767) / peak <= 32767) by (nonlinear_arith)
            requires
                0 <= m * 32767 <= peak * 32767,
                peak > 0,
        ;
        assert(0 <= (m * 32767) / peak) by (nonlinear_arith)
            requires
                0 <= m * 32767,
                peak > 0,
        ;
        if sum >= 0 {
            assert(sum * 32767 == m * 32767);
        } else {
            assert(-(sum * 32767) == m * 32767) by (nonlinear_arith)
                requires
                    m == -sum,
            ;
        }
    }
}

/// Whatever the inputs and however many they are, a mix that is scaled
/// stays within the sample range, and is the plain sum where the peak of
/// the sums is in range; a mix that is clipped is the sum cut off at the
/// ends of the range.
pub proof fn lemma_mix_in_range(
    params: AudioMixingParamsView,
    available: Seq<InputSamplesView>,
    len: int,
    k: int,
)
    requires
        0 <= k < len,
    ensures
        SAMPLE_MIN <= mixed_sample(params, available, len, k) <= SAMPLE_MAX,
        params.mixing_strategy is SumScale ==> -(SAMPLE_MAX as int) <= mixed_sample(
            params,
            available,
            len,
            k,
        ),
        params.mixing_strategy is SumScale && peak(params.inputs, available, len) <= SAMPLE_MAX
            ==> mixed_sample(params, available, len, k) == sum_at(
            params.inputs,
            available,
            k,
            params.inputs.len() as int,
        ),
        params.mixing_strategy is SumClip ==> mixed_sample(params, available, len, k) == clipped(
            sum_at(params.inputs, available, k, params.inputs.len() as int),
        ),
{
    let sum = sum_at(params.inputs, available, k, params.inputs.len() as int);
    lemma_peak_bounds(params.inputs, available, len, k);
    lemma_rescaled_in_range(sum, peak(params.inputs, available, len));
    lemma_clipped(sum);
}

/// Clipping cuts off exactly the sums that are out of range.
pub proof fn lemma_clipped(sum: int)
    ensures
        SAMPLE_MIN <= clipped(sum) <= SAMPLE_MAX,
        SAMPLE_MIN <= sum <= SAMPLE_MAX ==> clipped(sum) == sum,
        sum > SAMPLE_MAX ==> clipped(sum) == SAMPLE_MAX,
        sum < SAMPLE_MIN ==> clipped(sum) == SAMPLE_MIN,
{
}


fn find_samples<'a>(available: &'a Vec<InputSamples>, input_id: &String) -> (res: Option<
    &'a Vec<i16>,
>)
    ensures
        match res {
            Some(samples) => samples_of(samples_views(available@), input_id@, 0) == Some(samples@),
            None => samples_of(samples_views(available@), input_id@, 0) is None,
        },
{
    let mut i: usize = 0;
    while i < available.len()
        invariant
            i <= available.len(),
            samples_of(samples_views(available@), input_id@, 0) == samples_of(
                samples_views(available@),
                input_id@,
                i as int,
            ),
        decreases available.len() - i,
    {
        if available[i].input_id == *input_id {
            return Some(&available[i].samples);
        }
        i += 1;
    }
    None
}

fn divide_towards_zero(a: i128, b: i128) -> (res: i128)
    requires
        b > 0,
        a > i128::MIN,
    ensures
        res == div_towards_zero(a as int, b as int),
{
    if a >= 0 {
        a / b
    } else {
        let q = (-a) / b;
        assert(0 <= q <= -a) by (nonlinear_arith)
            requires
                q as int == (-(a as int)) / (b as int),
                0 <= -a,
                b > 0,
        ;
        -q
    }
}

fn scale_sample(sample: i16, volume: u32) -> (res: i128)
    requires
        volume <= VOLUME_ONE,
    ensures
        res == scaled(sample as int, volume as int),
{
    assert(-32768 * 65536 <= sample * volume <= 32768 * 65536) by (nonlinear_arith)
        requires
            -32768 <= sample <= 32767,
            0 <= volume <= 65536,
    ;
    let product: i128 = (sample as i128) * (volume as i128);
    divide_towards_zero(product, 65536)
}

/// Whether the first `n` of `buffers` are what the inputs of `params`
/// have among `available`, one for one.
spec fn buffers_found(
    params: &AudioMixingParams,
    available: Seq<InputSamplesView>,
    buffers: Seq<Option<&Vec<i16>>>,
    n: int,
) -> bool {
    forall|i: int|
        0 <= i < n ==> match #[trigger] buffers[i] {
            Some(samples) => samples_of(available, params.inputs[i].input_id@, 0) == Some(samples@),
            None => samples_of(available, params.inputs[i].input_id@, 0) is None,
        }
}

/// What the inputs add up to at position `k`.
fn sum_samples(
    params: &AudioMixingParams,
    available: &Vec<InputSamples>,
    buffers: &Vec<Option<&Vec<i16>>>,
    k: usize,
) -> (sum: i128)
    requires
        params.wf(),
        buffers.len() == params.inputs.len(),
        buffers_found(params, samples_views(available@), buffers@, buffers.len() as int),
    ensures
        sum == sum_at(
            params@.inputs,
            samples_views(available@),
            k as int,
            params.inputs.len() as int,
        ),
        magnitude(sum as int) <= 32768 * params.inputs.len(),
{
    let mut sum: i128 = 0;
    let mut i: usize = 0;
    while i < params.inputs.len()
        invariant
            i <= params.inputs.len(),
            params.wf(),
            buffers.len() == params.inputs.len(),
            buffers_found(params, samples_views(available@), buffers@, buffers.len() as int),
            sum == sum_at(params@.inputs, samples_views(available@), k as int, i as int),
        decreases params.inputs.len() - i,
    {
        proof {
            lemma_sum_bounded(*params, samples_views(available@), k as int, i as int);
            lemma_sum_bounded(*params, samples_views(available@), k as int, i as int + 1);
            assert(params@.inputs[i as int] == params.inputs[i as int]@);
        }
        let added: i128 = match buffers[i] {
            Some(samples) => if k < samples.len() {
                scale_sample(samples[k], params.inputs[i].volume)
            } else {
                0
            },
            None => 0,
        };
        assert(added == contribution(params@.inputs[i as int], samples_views(available@), k as int));
        sum = sum + added;
        i += 1;
    }
    proof {
        lemma_sum_bounded(*params, samples_views(available@), k as int, params.inputs.len() as int);
    }
    sum
}

/// Mixes one tick of audio: `len` samples, each the sum of what the
/// inputs of `params` have at that position in `available`, at their
/// volumes, brought into the sample range by the strategy of `params`.
/// An input without samples, or with too few, adds silence.
pub fn mix_samples(params: &AudioMixingParams, available: &Vec<InputSamples>, len: usize) -> (mixed:
    Vec<i16>)
    requires
        params.wf(),
    ensures
        mixed.len() == len,
        forall|k: int|
            0 <= k < len ==> (#[trigger] mixed[k]) as int == mixed_sample(
                params@,
                samples_views(available@),
                len as int,
                k,
            ),
{
    let mut buffers: Vec<Option<&Vec<i16>>> = Vec::new();
    let mut i: usize = 0;
    while i < params.inputs.len()
        invariant
            i <= params.inputs.len(),
            buffers.len() == i,
            buffers_found(params, samples_views(available@), buffers@, i as int),
        decreases params.inputs.len() - i,
    {
        buffers.push(find_samples(available, &params.inputs[i].input_id));
        i += 1;
    }
    let ghost inputs = params@.inputs;
    let mut sums: Vec<i128> = Vec::new();
    let mut top: i128 = 0;
    let mut k: usize = 0;
    while k < len
        invariant
            k <= len,
            params.wf(),
            inputs == params@.inputs,
            buffers.len() == params.inputs.len(),
            buffers_found(params, samples_views(available@), buffers@, buffers.len() as int),
            sums.len() == k,
            forall|j: int|
                0 <= j < k ==> (#[trigger] sums[j]) as int == sum_at(
                    inputs,
                    samples_views(available@),
                    j,
                    inputs.len() as int,
                ),
            top == peak(inputs, samples_views(available@), k as int),
            0 <= top <= 32768 * params.inputs.len(),
        decreases len - k,
    {
        let sum = sum_samples(params, available, &buffers, k);
        let here = if sum >= 0 {
            sum
        } else {
            -sum
        };
        if here > top {
            top = here;
        }
        sums.push(sum);
        k += 1;
    }
    let mut mixed: Vec<i16> = Vec::new();
    let mut k: usize = 0;
    while k < len
        invariant
            k <= len,
            inputs == params@.inputs,
            sums.len() == len,
            forall|j: int|
                0 <= j < len ==> (#[trigger] sums[j]) as int == sum_at(
                    inputs,
                    samples_views(available@),
                    j,
                    inputs.len() as int,
                ),
            top == peak(inputs, samples_views(available@), len as int),
            0 <= top <= 32768 * params.inputs.len(),
            mixed.len() == k,
            forall|j: int|
                0 <= j < k ==> (#[trigger] mixed[j]) as int == mixed_sample(
                    params@,
                    samples_views(available@),
                    len as int,
                    j,
                ),
        decreases len - k,
    {
        let sum = sums[k];
        proof {
            lemma_peak_bounds(inputs, samples_views(available@), len as int, k as int);
            lemma_rescaled_in_range(sum as int, top as int);
        }
        let sample: i16 = match params.mixing_strategy {
            MixingStrategy::SumClip => {
                if sum > 32767 {
                    SAMPLE_MAX
                } else if sum < -32768 {
                    SAMPLE_MIN
                } else {
                    sum as i16
                }
            },
            MixingStrategy::SumScale => {
                if top <= 32767 {
                    sum as i16
                } else {
                    assert(magnitude(sum as int) * 32767 <= 32768 * params.inputs.len() * 32767)
                        by (nonlinear_arith)
                        requires
                            magnitude(sum as int) <= top,
                            top <= 32768 * params.inputs.len(),
                    ;
                    assert(sum * 32767 == magnitude(sum as int) * 32767 || sum * 32767
                        == -(magnitude(sum as int) * 32767)) by (nonlinear_arith);
                    divide_towards_zero(sum * 32767, top) as i16
                }
            },
        };
        mixed.push(sample);
        k += 1;
    }
    mixed
}

} // verus!
