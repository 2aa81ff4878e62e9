use am_osx_status::osa_apple_music::{ApplicationData, EqualizerPreset, PlayerState, RepeatMode, ShuffleMode};

fn data(shuffling: bool) -> ApplicationData {
    ApplicationData {
        state: PlayerState::Playing,
        version: "1.5.0.73".to_owned(),
        mute: false,
        shuffling,
        shuffle: Some(ShuffleMode::Songs),
        repeat: RepeatMode::All,
        volume: 40,
        position: Some(12),
    }
}

#[test]
fn shuffle_mode_only_while_shuffling() {
    let fixed = data(false).fix();
    assert!(fixed.shuffle.is_none());
    assert_eq!(fixed.version, "1.5.0.73");
    assert_eq!(fixed.volume, 40);
    assert_eq!(fixed.repeat, RepeatMode::All);
    assert_eq!(fixed.position, Some(12));
    assert_eq!(data(true).fix().shuffle, Some(ShuffleMode::Songs));
}

#[test]
fn equalizer_names() {
    assert_eq!(EqualizerPreset::HipHop.name(), "Hip-Hop");
    assert_eq!(EqualizerPreset::RhythmAndBlues.name(), "R&B");
    assert_eq!(EqualizerPreset::try_from_name("Spoken Word"), Some(EqualizerPreset::SpokenWord));
    assert_eq!(EqualizerPreset::try_from_name("spoken word"), None);
    assert_eq!(EqualizerPreset::from_str("Increase Bass"), EqualizerPreset::IncreaseBass);
    let all = [
        EqualizerPreset::Acoustic, EqualizerPreset::Classical, EqualizerPreset::Dance, EqualizerPreset::Deep,
        EqualizerPreset::Electronic, EqualizerPreset::Flat, EqualizerPreset::HipHop, EqualizerPreset::IncreaseBass,
        EqualizerPreset::IncreaseTreble, EqualizerPreset::IncreaseVocals, EqualizerPreset::Jazz, EqualizerPreset::Latin,
        EqualizerPreset::Loudness, EqualizerPreset::Lounge, EqualizerPreset::Piano, EqualizerPreset::Pop,
        EqualizerPreset::RhythmAndBlues, EqualizerPreset::ReduceBass, EqualizerPreset::ReduceTreble, EqualizerPreset::Rock,
        EqualizerPreset::SmallSpeakers, EqualizerPreset::SpokenWord,
    ];
    for preset in all {
        assert_eq!(EqualizerPreset::try_from_name(preset.name()), Some(preset));
    }
}
