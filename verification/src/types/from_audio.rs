//! From the audio part of a request to what the mixer works on.

use crate::audio_mixer;
use crate::audio_mixer::{AudioMixingParams, InputParams, InputParamsView, VOLUME_ONE};
use crate::types::audio::{Audio, AudioChannels, AudioCodec, InputAudio, MixingStrategy, TypeError};
use vstd::prelude::*;
use vstd::std_specs::convert::{FromSpecImpl, TryFromSpecImpl};

verus! {

/// Whether a requested volume is a fraction of full volume.
pub open spec fn volume_in_range(volume: Option<i64>) -> bool {
    match volume {
        Some(v) => 0 <= v <= VOLUME_ONE,
        None => true,
    }
}

/// What the mixer is told of an input that a request describes.
pub open spec fn input_params(input: InputAudio) -> InputParamsView {
    InputParamsView {
        input_id: input.input_id@,
        volume: match input.volume {
            Some(v) => v as int,
            None => VOLUME_ONE as int,
        },
    }
}

/// The strategy that a request asks for.
pub open spec fn strategy_of(strategy: Option<MixingStrategy>) -> audio_mixer::MixingStrategy {
    match strategy {
        Some(MixingStrategy::SumScale) => audio_mixer::MixingStrategy::SumScale,
        _ => audio_mixer::MixingStrategy::SumClip,
    }
}

/// What is said of a volume that is out of range.
pub open spec fn volume_error() -> Seq<char> {
    "Input volume has to be in [0, 1] range."@
}

impl TryFrom<Audio> for AudioMixingParams {
    type Error = TypeError;

    /// Fails if the volume of an input is out of range; else takes over
    /// every input, in order, and the strategy.
    fn try_from(value: Audio) -> (res: Result<Self, TypeError>)
        ensures
            res is Ok == forall|i: int|
                0 <= i < value.inputs.len() ==> volume_in_range((#[trigger] value.inputs[i]).volume),
            res matches Ok(params) ==> {
                &&& params.wf()
                &&& params@.mixing_strategy == strategy_of(value.mixing_strategy)
                &&& params@.inputs.len() == value.inputs.len()
                &&& forall|i: int|
                    0 <= i < value.inputs.len() ==> (#[trigger] params@.inputs[i]) == input_params(
                        value.inputs[i],
                    )
            },
            res matches Err(err) ==> err.spec_message() == volume_error(),
    {
        let Audio { inputs: requested, mixing_strategy } = value;
        let mut inputs: Vec<InputParams> = Vec::new();
        let mut i: usize = 0;
        while i < requested.len()
            invariant
                i <= requested.len(),
                requested == value.inputs,
                inputs.len() == i,
                forall|j: int| 0 <= j < i ==> volume_in_range((#[trigger] requested[j]).volume),
                forall|j: int| 0 <= j < i ==> (#[trigger] inputs[j])@ == input_params(requested[j]),
            decreases requested.len() - i,
        {
            let input = InputAudio {
                input_id: requested[i].input_id.clone(),
                volume: requested[i].volume,
            };
            match InputParams::try_from(input) {
                Ok(params) => inputs.push(params),
                Err(err) => {
                    return Err(err);
                },
            }
            i += 1;
        }
        let strategy = match mixing_strategy {
            Some(strategy) => audio_mixer::MixingStrategy::from(strategy),
            None => audio_mixer::MixingStrategy::SumClip,
        };
        Ok(Self { inputs, mixing_strategy: strategy })
    }
}

impl TryFromSpecImpl<Audio> for AudioMixingParams {
    /// The result holds a list, which no specification can build: see the
    /// contract of `try_from` itself.
    open spec fn obeys_try_from_spec() -> bool {
        false
    }

    open spec fn try_from_spec(value: Audio) -> Result<Self, TypeError> {
        arbitrary()
    }
}

impl TryFrom<InputAudio> for InputParams {
    type Error = TypeError;

    /// Fails if the volume is out of range; else takes over the input,
    /// at full volume where none is given.
    fn try_from(value: InputAudio) -> (res: Result<Self, TypeError>)
        ensures
            res is Ok == volume_in_range(value.volume),
            res matches Ok(params) ==> params@ == input_params(value) && params.volume
                <= VOLUME_ONE,
            res matches Err(err) ==> err.spec_message() == volume_error(),
    {
        if let Some(volume) = value.volume {
            if !(0 <= volume && volume <= 65536) {
                return Err(TypeError::new("Input volume has to be in [0, 1] range."));
            }
        }
        Ok(
            Self {
                input_id: value.input_id,
                volume: match value.volume {
                    Some(volume) => volume as u32,
                    None => VOLUME_ONE,
                },
            },
        )
    }
}

impl TryFromSpecImpl<InputAudio> for InputParams {
    open spec fn obeys_try_from_spec() -> bool {
        true
    }

    open spec fn try_from_spec(value: InputAudio) -> Result<Self, TypeError> {
        if volume_in_range(value.volume) {
            Ok(
                InputParams {
                    input_id: value.input_id,
                    volume: match value.volume {
                        Some(volume) => volume as u32,
                        None => VOLUME_ONE,
                    },
                },
            )
        } else {
            Err(TypeError::spec_new("Input volume has to be in [0, 1] range."))
        }
    }
}

impl From<MixingStrategy> for audio_mixer::MixingStrategy {
    fn from(value: MixingStrategy) -> (res: Self) {
        match value {
            MixingStrategy::SumClip => audio_mixer::MixingStrategy::SumClip,
            MixingStrategy::SumScale => audio_mixer::MixingStrategy::SumScale,
        }
    }
}

impl FromSpecImpl<MixingStrategy> for audio_mixer::MixingStrategy {
    open spec fn obeys_from_spec() -> bool {
        true
    }

    open spec fn from_spec(value: MixingStrategy) -> Self {
        match value {
            MixingStrategy::SumClip => audio_mixer::MixingStrategy::SumClip,
            MixingStrategy::SumScale => audio_mixer::MixingStrategy::SumScale,
        }
    }
}

impl From<AudioCodec> for crate::pipeline::AudioCodec {
    fn from(value: AudioCodec) -> (res: Self) {
        match value {
            AudioCodec::Opus => crate::pipeline::AudioCodec::Opus,
        }
    }
}

impl FromSpecImpl<AudioCodec> for crate::pipeline::AudioCodec {
    open spec fn obeys_from_spec() -> bool {
        true
    }

    open spec fn from_spec(value: AudioCodec) -> Self {
        match value {
            AudioCodec::Opus => crate::pipeline::AudioCodec::Opus,
        }
    }
}

impl From<AudioChannels> for audio_mixer::AudioChannels {
    fn from(value: AudioChannels) -> (res: Self) {
        match value {
            AudioChannels::Mono => audio_mixer::AudioChannels::Mono,
            AudioChannels::Stereo => audio_mixer::AudioChannels::Stereo,
        }
    }
}

impl FromSpecImpl<AudioChannels> for audio_mixer::AudioChannels {
    open spec fn obeys_from_spec() -> bool {
        true
    }

    open spec fn from_spec(value: AudioChannels) -> Self {
        match value {
            AudioChannels::Mono => audio_mixer::AudioChannels::Mono,
            AudioChannels::Stereo => audio_mixer::AudioChannels::Stereo,
        }
    }
}

} // verus!
