//! The state of the Apple Music application and the equalizer presets of its tracks, as its
//! scripting interface reports them.
use vstd::prelude::*;
use crate::text::str_eq;

verus! {

/// What the player is doing.
#[derive(Debug, Clone, Copy, PartialEq, Eq, Structural)]
pub enum PlayerState {
    Stopped,
    Playing,
    Paused,
    FastForwarding,
    Rewinding,
}

/// How the application shuffles tracks.
#[derive(Debug, Clone, Copy, PartialEq, Eq, Structural)]
pub enum ShuffleMode {
    Songs,
    Albums,
    Groupings,
}

/// What the application repeats.
#[derive(Debug, Clone, Copy, PartialEq, Eq, Structural)]
pub enum RepeatMode {
    /// Nothing is repeated.
    Off,
    /// The current track is repeated.
    One,
    /// All tracks of the current playlist are repeated.
    All,
}

/// The state of the Apple Music application.
#[derive(Debug)]
pub struct ApplicationData {
    /// What the player is doing.
    pub state: PlayerState,
    /// The application's version.
    pub version: String,
    /// Whether the application is muted.
    pub mute: bool,
    pub shuffling: bool,
    /// How the application shuffles, where it does.
    pub shuffle: Option<ShuffleMode>,
    pub repeat: RepeatMode,
    /// The volume, from 0 to 100.
    pub volume: u8,
    /// Where in the current track the player is, in seconds.
    pub position: Option<u32>,
}

impl ApplicationData {
    /// The state with the shuffle mode dropped where shuffling is off, since the application
    /// reports a mode either way.
    pub fn fix(self) -> (r: Self)
        ensures
            r.state == self.state,
            r.version@ == self.version@,
            r.mute == self.mute,
            r.shuffling == self.shuffling,
            r.shuffle == (if self.shuffling { self.shuffle } else { None }),
            r.repeat == self.repeat,
            r.volume == self.volume,
            r.position == self.position,
    {
        let mut data = self;
        if !data.shuffling {
            data.shuffle = None;
        }
        data
    }
}

/// The equalizer presets of the application.
#[derive(Debug, Clone, Copy, PartialEq, Eq, Structural)]
pub enum EqualizerPreset {
    Acoustic,
    Classical,
    Dance,
    Deep,
    Electronic,
    Flat,
    HipHop,
    IncreaseBass,
    IncreaseTreble,
    IncreaseVocals,
    Jazz,
    Latin,
    Loudness,
    Lounge,
    Piano,
    Pop,
    RhythmAndBlues,
    ReduceBass,
    ReduceTreble,
    Rock,
    SmallSpeakers,
    SpokenWord,
}

impl EqualizerPreset {
    /// The name the application gives the preset.
    pub open spec fn spec_name(self) -> Seq<char> {
        match self {
            EqualizerPreset::Acoustic => "Acoustic"@,
            EqualizerPreset::Classical => "Classical"@,
            EqualizerPreset::Dance => "Dance"@,
            EqualizerPreset::Deep => "Deep"@,
            EqualizerPreset::Electronic => "Electronic"@,
            EqualizerPreset::Flat => "Flat"@,
            EqualizerPreset::HipHop => "Hip-Hop"@,
            EqualizerPreset::IncreaseBass => "Increase Bass"@,
            EqualizerPreset::IncreaseTreble => "Increase Treble"@,
            EqualizerPreset::IncreaseVocals => "Increase Vocals"@,
            EqualizerPreset::Jazz => "Jazz"@,
            EqualizerPreset::Latin => "Latin"@,
            EqualizerPreset::Loudness => "Loudness"@,
            EqualizerPreset::Lounge => "Lounge"@,
            EqualizerPreset::Piano => "Piano"@,
            EqualizerPreset::Pop => "Pop"@,
            EqualizerPreset::RhythmAndBlues => "R&B"@,
            EqualizerPreset::ReduceBass => "Reduce Bass"@,
            EqualizerPreset::ReduceTreble => "Reduce Treble"@,
            EqualizerPreset::Rock => "Rock"@,
            EqualizerPreset::SmallSpeakers => "Small Speakers"@,
            EqualizerPreset::SpokenWord => "Spoken Word"@,
        }
    }

    /// The name the application gives the preset.
    pub fn name(self) -> (r: &'static str)
        ensures
            r@ == self.spec_name(),
    {
        match self {
            EqualizerPreset::Acoustic => "Acoustic",
            EqualizerPreset::Classical => "Classical",
            EqualizerPreset::Dance => "Dance",
            EqualizerPreset::Deep => "Deep",
            EqualizerPreset::Electronic => "Electronic",
            EqualizerPreset::Flat => "Flat",
            EqualizerPreset::HipHop => "Hip-Hop",
            EqualizerPreset::IncreaseBass => "Increase Bass",
            EqualizerPreset::IncreaseTreble => "Increase Treble",
            EqualizerPreset::IncreaseVocals => "Increase Vocals",
            EqualizerPreset::Jazz => "Jazz",
            EqualizerPreset::Latin => "Latin",
            EqualizerPreset::Loudness => "Loudness",
            EqualizerPreset::Lounge => "Lounge",
            EqualizerPreset::Piano => "Piano",
            EqualizerPreset::Pop => "Pop",
            EqualizerPreset::RhythmAndBlues => "R&B",
            EqualizerPreset::ReduceBass => "Reduce Bass",
            EqualizerPreset::ReduceTreble => "Reduce Treble",
            EqualizerPreset::Rock => "Rock",
            EqualizerPreset::SmallSpeakers => "Small Speakers",
            EqualizerPreset::SpokenWord => "Spoken Word",
        }
    }

    /// The preset named `s`, if any.
    pub fn try_from_name(s: &str) -> (r: Option<Self>)
        ensures
            r matches Some(p) ==> p.spec_name() == s@,
            r is None ==> forall|p: Self| #[trigger] p.spec_name() != s@,
    {
        if str_eq(s, "Acoustic") {
            return Some(EqualizerPreset::Acoustic);
        }
        if str_eq(s, "Classical") {
            return Some(EqualizerPreset::Classical);
        }
        if str_eq(s, "Dance") {
            return Some(EqualizerPreset::Dance);
        }
        if str_eq(s, "Deep") {
            return Some(EqualizerPreset::Deep);
        }
        if str_eq(s, "Electronic") {
            return Some(EqualizerPreset::Electronic);
        }
        if str_eq(s, "Flat") {
            return Some(EqualizerPreset::Flat);
        }
        if str_eq(s, "Hip-Hop") {
            return Some(EqualizerPreset::HipHop);
        }
        if str_eq(s, "Increase Bass") {
            return Some(EqualizerPreset::IncreaseBass);
        }
        if str_eq(s, "Increase Treble") {
            return Some(EqualizerPreset::IncreaseTreble);
        }
        if str_eq(s, "Increase Vocals") {
            return Some(EqualizerPreset::IncreaseVocals);
        }
        if str_eq(s, "Jazz") {
            return Some(EqualizerPreset::Jazz);
        }
        if str_eq(s, "Latin") {
            return Some(EqualizerPreset::Latin);
        }
        if str_eq(s, "Loudness") {
            return Some(EqualizerPreset::Loudness);
        }
        if str_eq(s, "Lounge") {
            return Some(EqualizerPreset::Lounge);
        }
        if str_eq(s, "Piano") {
            return Some(EqualizerPreset::Piano);
        }
        if str_eq(s, "Pop") {
            return Some(EqualizerPreset::Pop);
        }
        if str_eq(s, "R&B") {
            return Some(EqualizerPreset::RhythmAndBlues);
        }
        if str_eq(s, "Reduce Bass") {
            return Some(EqualizerPreset::ReduceBass);
        }
        if str_eq(s, "Reduce Treble") {
            return Some(EqualizerPreset::ReduceTreble);
        }
        if str_eq(s, "Rock") {
            return Some(EqualizerPreset::Rock);
        }
        if str_eq(s, "Small Speakers") {
            return Some(EqualizerPreset::SmallSpeakers);
        }
        if str_eq(s, "Spoken Word") {
            return Some(EqualizerPreset::SpokenWord);
        }
        None
    }

    /// The preset named `s`, which must be one of the names.
    pub fn from_str(s: &str) -> (r: Self)
        requires
            exists|p: Self| #[trigger] p.spec_name() == s@,
        ensures
            r.spec_name() == s@,
    {
        match Self::try_from_name(s) {
            Some(p) => p,
            None => vstd::pervasive::unreached(),
        }
    }
}


/// No two presets share a name, so reading back a preset's name gives the preset again.
pub proof fn law_preset_names_distinct(a: EqualizerPreset, b: EqualizerPreset)
    ensures
        a.spec_name() == b.spec_name() ==> a == b,
{
    if a.spec_name() == b.spec_name() {
        reveal_strlit("Acoustic");
        reveal_strlit("Classical");
        reveal_strlit("Dance");
        reveal_strlit("Deep");
        reveal_strlit("Electronic");
        reveal_strlit("Flat");
        reveal_strlit("Hip-Hop");
        reveal_strlit("Increase Bass");
        reveal_strlit("Increase Treble");
        reveal_strlit("Increase Vocals");
        reveal_strlit("Jazz");
        reveal_strlit("Latin");
        reveal_strlit("Loudness");
        reveal_strlit("Lounge");
        reveal_strlit("Piano");
        reveal_strlit("Pop");
        reveal_strlit("R&B");
        reveal_strlit("Reduce Bass");
        reveal_strlit("Reduce Treble");
        reveal_strlit("Rock");
        reveal_strlit("Small Speakers");
        reveal_strlit("Spoken Word");
        assert(a.spec_name().len() == b.spec_name().len());
        assert(a.spec_name()[0] == b.spec_name()[0]);
        if a.spec_name().len() > 1 {
            assert(a.spec_name()[1] == b.spec_name()[1]);
        }
        if a.spec_name().len() > 2 {
            assert(a.spec_name()[2] == b.spec_name()[2]);
        }
        if a.spec_name().len() > 7 {
            assert(a.spec_name()[7] == b.spec_name()[7]);
        }
        if a.spec_name().len() > 9 {
            assert(a.spec_name()[9] == b.spec_name()[9]);
        }
    }
}

/// The presets carry the names the application shows, such as `Hip-Hop`, `R&B`,
/// `Increase Bass` and `Spoken Word`.
pub proof fn law_preset_names()
    ensures
        EqualizerPreset::Acoustic.spec_name() == seq!['A', 'c', 'o', 'u', 's', 't', 'i', 'c'],
        EqualizerPreset::Classical.spec_name() == seq!['C', 'l', 'a', 's', 's', 'i', 'c', 'a', 'l'],
        EqualizerPreset::Dance.spec_name() == seq!['D', 'a', 'n', 'c', 'e'],
        EqualizerPreset::Deep.spec_name() == seq!['D', 'e', 'e', 'p'],
        EqualizerPreset::Electronic.spec_name() == seq!['E', 'l', 'e', 'c', 't', 'r', 'o', 'n', 'i', 'c'],
        EqualizerPreset::Flat.spec_name() == seq!['F', 'l', 'a', 't'],
        EqualizerPreset::HipHop.spec_name() == seq!['H', 'i', 'p', '-', 'H', 'o', 'p'],
        EqualizerPreset::IncreaseBass.spec_name() == seq!['I', 'n', 'c', 'r', 'e', 'a', 's', 'e', ' ', 'B', 'a', 's', 's'],
        EqualizerPreset::IncreaseTreble.spec_name() == seq!['I', 'n', 'c', 'r', 'e', 'a', 's', 'e', ' ', 'T', 'r', 'e', 'b', 'l', 'e'],
        EqualizerPreset::IncreaseVocals.spec_name() == seq!['I', 'n', 'c', 'r', 'e', 'a', 's', 'e', ' ', 'V', 'o', 'c', 'a', 'l', 's'],
        EqualizerPreset::Jazz.spec_name() == seq!['J', 'a', 'z', 'z'],
        EqualizerPreset::Latin.spec_name() == seq!['L', 'a', 't', 'i', 'n'],
        EqualizerPreset::Loudness.spec_name() == seq!['L', 'o', 'u', 'd', 'n', 'e', 's', 's'],
        EqualizerPreset::Lounge.spec_name() == seq!['L', 'o', 'u', 'n', 'g', 'e'],
        EqualizerPreset::Piano.spec_name() == seq!['P', 'i', 'a', 'n', 'o'],
        EqualizerPreset::Pop.spec_name() == seq!['P', 'o', 'p'],
        EqualizerPreset::RhythmAndBlues.spec_name() == seq!['R', '&', 'B'],
        EqualizerPreset::ReduceBass.spec_name() == seq!['R', 'e', 'd', 'u', 'c', 'e', ' ', 'B', 'a', 's', 's'],
        EqualizerPreset::ReduceTreble.spec_name() == seq!['R', 'e', 'd', 'u', 'c', 'e', ' ', 'T', 'r', 'e', 'b', 'l', 'e'],
        EqualizerPreset::Rock.spec_name() == seq!['R', 'o', 'c', 'k'],
        EqualizerPreset::SmallSpeakers.spec_name() == seq!['S', 'm', 'a', 'l', 'l', ' ', 'S', 'p', 'e', 'a', 'k', 'e', 'r', 's'],
        EqualizerPreset::SpokenWord.spec_name() == seq!['S', 'p', 'o', 'k', 'e', 'n', ' ', 'W', 'o', 'r', 'd'],
{
    reveal_strlit("Acoustic");
    assert(seq!['A', 'c', 'o', 'u', 's', 't', 'i', 'c'] =~= "Acoustic"@);
    reveal_strlit("Classical");
    assert(seq!['C', 'l', 'a', 's', 's', 'i', 'c', 'a', 'l'] =~= "Classical"@);
    reveal_strlit("Dance");
    assert(seq!['D', 'a', 'n', 'c', 'e'] =~= "Dance"@);
    reveal_strlit("Deep");
    assert(seq!['D', 'e', 'e', 'p'] =~= "Deep"@);
    reveal_strlit("Electronic");
    assert(seq!['E', 'l', 'e', 'c', 't', 'r', 'o', 'n', 'i', 'c'] =~= "Electronic"@);
    reveal_strlit("Flat");
    assert(seq!['F', 'l', 'a', 't'] =~= "Flat"@);
    reveal_strlit("Hip-Hop");
    assert(seq!['H', 'i', 'p', '-', 'H', 'o', 'p'] =~= "Hip-Hop"@);
    reveal_strlit("Increase Bass");
    assert(seq!['I', 'n', 'c', 'r', 'e', 'a', 's', 'e', ' ', 'B', 'a', 's', 's'] =~= "Increase Bass"@);
    reveal_strlit("Increase Treble");
    assert(seq!['I', 'n', 'c', 'r', 'e', 'a', 's', 'e', ' ', 'T', 'r', 'e', 'b', 'l', 'e'] =~= "Increase Treble"@);
    reveal_strlit("Increase Vocals");
    assert(seq!['I', 'n', 'c', 'r', 'e', 'a', 's', 'e', ' ', 'V', 'o', 'c', 'a', 'l', 's'] =~= "Increase Vocals"@);
    reveal_strlit("Jazz");
    assert(seq!['J', 'a', 'z', 'z'] =~= "Jazz"@);
    reveal_strlit("Latin");
    assert(seq!['L', 'a', 't', 'i', 'n'] =~= "Latin"@);
    reveal_strlit("Loudness");
    assert(seq!['L', 'o', 'u', 'd', 'n', 'e', 's', 's'] =~= "Loudness"@);
    reveal_strlit("Lounge");
    assert(seq!['L', 'o', 'u', 'n', 'g', 'e'] =~= "Lounge"@);
    reveal_strlit("Piano");
    assert(seq!['P', 'i', 'a', 'n', 'o'] =~= "Piano"@);
    reveal_strlit("Pop");
    assert(seq!['P', 'o', 'p'] =~= "Pop"@);
    reveal_strlit("R&B");
    assert(seq!['R', '&', 'B'] =~= "R&B"@);
    reveal_strlit("Reduce Bass");
    assert(seq!['R', 'e', 'd', 'u', 'c', 'e', ' ', 'B', 'a', 's', 's'] =~= "Reduce Bass"@);
    reveal_strlit("Reduce Treble");
    assert(seq!['R', 'e', 'd', 'u', 'c', 'e', ' ', 'T', 'r', 'e', 'b', 'l', 'e'] =~= "Reduce Treble"@);
    reveal_strlit("Rock");
    assert(seq!['R', 'o', 'c', 'k'] =~= "Rock"@);
    reveal_strlit("Small Speakers");
    assert(seq!['S', 'm', 'a', 'l', 'l', ' ', 'S', 'p', 'e', 'a', 'k', 'e', 'r', 's'] =~= "Small Speakers"@);
    reveal_strlit("Spoken Word");
    assert(seq!['S', 'p', 'o', 'k', 'e', 'n', ' ', 'W', 'o', 'r', 'd'] =~= "Spoken Word"@);
}

} // verus!
