//! The audio part of a request.

use vstd::prelude::*;

verus! {

/// The audio part of an output, as a request describes it.
#[derive(Debug)]
pub struct Audio {
    pub inputs: Vec<InputAudio>,
    /// How the inputs are combined; `SumClip` where nothing is said.
    pub mixing_strategy: Option<MixingStrategy>,
}

/// One input of an output's audio, as a request describes it.
#[derive(Debug)]
pub struct InputAudio {
    pub input_id: String,
    /// The volume as a fraction of full volume, in 65536ths, as it
    /// arrived: any integer may stand here. Full volume where nothing is
    /// said.
    pub volume: Option<i64>,
}

/// How the audio of several inputs becomes one signal.
#[derive(Clone, Copy, Debug, PartialEq, Eq, Structural)]
pub enum MixingStrategy {
    /// Add the signals up and cut off what is out of range.
    SumClip,
    /// Add the signals up and scale the sum down where it is out of range.
    SumScale,
}

/// The codec of the audio that an output sends.
#[derive(Clone, Copy, Debug, PartialEq, Eq, Structural)]
pub enum AudioCodec {
    Opus,
}

/// How many channels the audio of an output has.
#[derive(Clone, Copy, Debug, PartialEq, Eq, Structural)]
pub enum AudioChannels {
    Mono,
    Stereo,
}

/// A request that cannot be turned into what the pipeline works on.
#[derive(Debug)]
pub struct TypeError {
    message: &'static str,
}

impl TypeError {
    /// What the error says.
    pub closed spec fn spec_message(&self) -> Seq<char> {
        self.message@
    }

    /// The error that `new` makes of a message.
    pub closed spec fn spec_new(message: &'static str) -> Self {
        Self { message }
    }

    /// An error that says `message`.
    pub fn new(message: &'static str) -> (err: Self)
        ensures
            err == Self::spec_new(message),
            err.spec_message() == message@,
    {
        Self { message }
    }

    /// What went wrong, for the one who sent the request.
    pub fn message(&self) -> (text: String)
        ensures
            text@ == self.spec_message(),
    {
        self.message.to_owned()
    }
}

} // verus!
