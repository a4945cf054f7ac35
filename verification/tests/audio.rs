use live_compositor::audio_mixer::{
    mix_samples, AudioChannels, AudioMixingParams, InputParams, InputSamples, MixingStrategy,
    VOLUME_ONE,
};
use live_compositor::pipeline::AudioCodec;
use live_compositor::types::audio as api;

fn input(id: &str, volume: u32) -> InputParams {
    InputParams { input_id: id.to_string(), volume }
}

fn samples(id: &str, samples: Vec<i16>) -> InputSamples {
    InputSamples { input_id: id.to_string(), samples }
}

fn params(inputs: Vec<InputParams>, mixing_strategy: MixingStrategy) -> AudioMixingParams {
    AudioMixingParams { inputs, mixing_strategy }
}

#[test]
fn input_without_volume_plays_at_full_volume() {
    let res = InputParams::try_from(api::InputAudio { input_id: "input_1".to_string(), volume: None });
    let params = res.unwrap();
    assert_eq!(params.input_id, "input_1");
    assert_eq!(params.volume, VOLUME_ONE);
}

#[test]
fn input_volume_is_taken_over() {
    let res = InputParams::try_from(api::InputAudio {
        input_id: "input_1".to_string(),
        volume: Some(32768),
    });
    assert_eq!(res.unwrap().volume, 32768);
}

#[test]
fn input_volume_at_the_ends_of_the_range_is_accepted() {
    for volume in [0i64, 65536] {
        let res = InputParams::try_from(api::InputAudio {
            input_id: "a".to_string(),
            volume: Some(volume),
        });
        assert_eq!(res.unwrap().volume as i64, volume);
    }
}

#[test]
fn input_volume_above_one_is_rejected() {
    let res = InputParams::try_from(api::InputAudio {
        input_id: "input_1".to_string(),
        volume: Some(65537),
    });
    let err = res.unwrap_err();
    assert_eq!(err.message(), "Input volume has to be in [0, 1] range.");
}

#[test]
fn input_volume_below_zero_is_rejected() {
    let res = InputParams::try_from(api::InputAudio {
        input_id: "input_1".to_string(),
        volume: Some(-1),
    });
    assert_eq!(res.unwrap_err().message(), "Input volume has to be in [0, 1] range.");
}

#[test]
fn audio_takes_over_every_input_in_order() {
    let audio = api::Audio {
        inputs: vec![
            api::InputAudio { input_id: "a".to_string(), volume: Some(100) },
            api::InputAudio { input_id: "b".to_string(), volume: None },
        ],
        mixing_strategy: Some(api::MixingStrategy::SumScale),
    };
    let params = AudioMixingParams::try_from(audio).unwrap();
    assert_eq!(params.inputs.len(), 2);
    assert_eq!(params.inputs[0].input_id, "a");
    assert_eq!(params.inputs[0].volume, 100);
    assert_eq!(params.inputs[1].input_id, "b");
    assert_eq!(params.inputs[1].volume, VOLUME_ONE);
    assert_eq!(params.mixing_strategy, MixingStrategy::SumScale);
}

#[test]
fn audio_without_strategy_clips() {
    let audio = api::Audio { inputs: vec![], mixing_strategy: None };
    let params = AudioMixingParams::try_from(audio).unwrap();
    assert_eq!(params.mixing_strategy, MixingStrategy::SumClip);
    assert!(params.inputs.is_empty());
}

#[test]
fn audio_with_one_bad_volume_is_rejected() {
    let audio = api::Audio {
        inputs: vec![
            api::InputAudio { input_id: "a".to_string(), volume: Some(100) },
            api::InputAudio { input_id: "b".to_string(), volume: Some(70000) },
        ],
        mixing_strategy: None,
    };
    let err = AudioMixingParams::try_from(audio).unwrap_err();
    assert_eq!(err.message(), "Input volume has to be in [0, 1] range.");
}

#[test]
fn strategies_codecs_and_channels_convert_one_for_one() {
    assert_eq!(MixingStrategy::from(api::MixingStrategy::SumClip), MixingStrategy::SumClip);
    assert_eq!(MixingStrategy::from(api::MixingStrategy::SumScale), MixingStrategy::SumScale);
    assert_eq!(AudioCodec::from(api::AudioCodec::Opus), AudioCodec::Opus);
    assert_eq!(AudioChannels::from(api::AudioChannels::Mono), AudioChannels::Mono);
    assert_eq!(AudioChannels::from(api::AudioChannels::Stereo), AudioChannels::Stereo);
}

#[test]
fn sum_clip_cuts_off_peaks_that_are_out_of_range() {
    let params = params(vec![input("a", VOLUME_ONE), input("b", VOLUME_ONE)], MixingStrategy::SumClip);
    let available = vec![
        samples("a", vec![30000, -30000, 100]),
        samples("b", vec![30000, -30000, 200]),
    ];
    assert_eq!(mix_samples(&params, &available, 3), vec![32767, -32768, 300]);
}

#[test]
fn sum_scale_keeps_the_peak_in_range() {
    let params = params(vec![input("a", VOLUME_ONE), input("b", VOLUME_ONE)], MixingStrategy::SumScale);
    let available = vec![
        samples("a", vec![30000, -30000, 100]),
        samples("b", vec![30000, -30000, 200]),
    ];
    // The peak is 60000: every sum is multiplied by 32767 / 60000.
    assert_eq!(mix_samples(&params, &available, 3), vec![32767, -32767, 163]);
}

#[test]
fn sum_scale_keeps_the_peak_in_range_with_many_sources() {
    let mut inputs = Vec::new();
    let mut available = Vec::new();
    for i in 0..40 {
        let id = format!("input_{i}");
        inputs.push(input(&id, VOLUME_ONE));
        available.push(samples(&id, vec![32767, -32768, 1]));
    }
    let mixed = mix_samples(&params(inputs, MixingStrategy::SumScale), &available, 3);
    assert_eq!(mixed.len(), 3);
    assert!(mixed.iter().all(|s| (-32767..=32767).contains(&(*s as i32))));
    // 40 * 32768 is the peak; 40 * 32767 comes to lie just below the end.
    assert_eq!(mixed[1], -32767);
    assert_eq!(mixed[0], 32766);
    assert_eq!(mixed[2], 0);
}

#[test]
fn sum_scale_leaves_a_mix_in_range_as_it_is() {
    let params = params(vec![input("a", VOLUME_ONE), input("b", VOLUME_ONE)], MixingStrategy::SumScale);
    let available = vec![samples("a", vec![1000, -2000]), samples("b", vec![500, -500])];
    assert_eq!(mix_samples(&params, &available, 2), vec![1500, -2500]);
}

#[test]
fn samples_are_scaled_by_the_volume_towards_zero() {
    // Half volume; 3 * 32768 / 65536 = 1.5 and -3 * 32768 / 65536 = -1.5.
    let params = params(vec![input("a", 32768)], MixingStrategy::SumClip);
    let available = vec![samples("a", vec![3, -3, 1000, -1000])];
    assert_eq!(mix_samples(&params, &available, 4), vec![1, -1, 500, -500]);
}

#[test]
fn an_input_without_audio_adds_silence() {
    let params = params(vec![input("a", VOLUME_ONE), input("gone", VOLUME_ONE)], MixingStrategy::SumClip);
    let available = vec![samples("a", vec![7, 8])];
    assert_eq!(mix_samples(&params, &available, 2), vec![7, 8]);
}

#[test]
fn an_input_with_too_few_samples_adds_silence_for_the_rest() {
    let params = params(vec![input("a", VOLUME_ONE), input("b", VOLUME_ONE)], MixingStrategy::SumClip);
    let available = vec![samples("a", vec![1, 2, 3]), samples("b", vec![10])];
    assert_eq!(mix_samples(&params, &available, 4), vec![11, 2, 3, 0]);
}

#[test]
fn samples_of_inputs_that_are_not_mixed_are_ignored() {
    let params = params(vec![input("a", VOLUME_ONE)], MixingStrategy::SumClip);
    let available = vec![samples("b", vec![100]), samples("a", vec![1])];
    assert_eq!(mix_samples(&params, &available, 1), vec![1]);
}

#[test]
fn a_mix_of_nothing_is_silence() {
    let params = params(vec![], MixingStrategy::SumScale);
    assert_eq!(mix_samples(&params, &vec![], 3), vec![0, 0, 0]);
    assert_eq!(mix_samples(&params, &vec![], 0), Vec::<i16>::new());
}

#[test]
fn volume_zero_mutes_an_input() {
    let params = params(vec![input("a", 0), input("b", VOLUME_ONE)], MixingStrategy::SumClip);
    let available = vec![samples("a", vec![30000]), samples("b", vec![5])];
    assert_eq!(mix_samples(&params, &available, 1), vec![5]);
}
