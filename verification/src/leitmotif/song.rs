//! The score, and the sequencer that walks through it.
//!
//! This is the part of the game that decides *which notes sound when*. It
//! knows nothing about the world: the sim turns its [`Event`]s into
//! behaviour, and the frontend turns the very same events into sound. If you
//! can hear an instrument, it is acting on the world, and if you cannot, it
//! is not.
//!
//! The song is a loop of [`Section`]s. Each section is one four-bar phrase
//! of a [`Motif`] played by some subset of the four [`Instrument`]s (the
//! arrangement). On top of the arrangement any instrument may be hushed;
//! both decide whether a layer is *active*, and only active layers emit
//! events.
//!
//! Time is counted in whole clock units, [`CLOCK_RATE`] of them to the
//! second, chosen so that one sim tick and one sixteenth step of every
//! motif are exact whole numbers of units. The sequencer holds no clock of
//! its own beyond the units it has been handed.

use vstd::prelude::*;

verus! {

/// Sixteenth-note grid.
pub const STEPS_PER_BEAT: u32 = 4;

/// Four-four time throughout.
pub const BEATS_PER_BAR: u32 = 4;

/// Steps in one bar.
pub const STEPS_PER_BAR: u32 = STEPS_PER_BEAT * BEATS_PER_BAR;

/// Every section is one phrase this long.
pub const BARS_PER_SECTION: u32 = 4;

/// Steps in one section.
pub const STEPS_PER_SECTION: u32 = STEPS_PER_BAR * BARS_PER_SECTION;

/// Sections in the song form, which loops when it runs out.
pub const SONG_LEN: usize = 6;

/// Clock units in one second: sixty ticks a second, each a whole number of
/// units, and a sixteenth of every tempo used a whole number too.
pub const CLOCK_RATE: u32 = 277200;

/// Clock units in one sim tick, a sixtieth of a second.
pub const TICK: u32 = 4620;

/// Velocities are counted in thousandths: this is a note at full strength.
pub const FULL_VELOCITY: u32 = 1000;

/// General MIDI drum notes, used as the "pitch" of drum events so every
/// note event has the same shape.
pub const KICK: u8 = 36;
/// See [`KICK`].
pub const SNARE: u8 = 38;
/// See [`KICK`].
pub const HAT: u8 = 42;

// MIDI note numbers, so the scores below read as music rather than as ints.
pub const C2: u8 = 36;
pub const D2: u8 = 38;
pub const E2: u8 = 40;
pub const F2: u8 = 41;
pub const G2: u8 = 43;
pub const GS2: u8 = 44;
pub const A2: u8 = 45;
pub const BB2: u8 = 46;
pub const E3: u8 = 52;
pub const F3: u8 = 53;
pub const G3: u8 = 55;
pub const GS3: u8 = 56;
pub const A3: u8 = 57;
pub const BB3: u8 = 58;
pub const B3: u8 = 59;
pub const C4: u8 = 60;
pub const D4: u8 = 62;
pub const E4: u8 = 64;
pub const F4: u8 = 65;
pub const G4: u8 = 67;
pub const GS4: u8 = 68;
pub const A4: u8 = 69;
pub const BB4: u8 = 70;
pub const B4: u8 = 71;
pub const C5: u8 = 72;
pub const D5: u8 = 74;
pub const E5: u8 = 76;
pub const F5: u8 = 77;

/// A layer of the arrangement.
#[derive(Clone, Copy, Debug, PartialEq, Eq, Hash, Structural)]
pub enum Instrument {
    /// Kick, snare and hat. Moves the stompers.
    Drums,
    /// Raises the walls.
    Bass,
    /// Drops the strikes.
    Lead,
    /// Charges the fermata.
    Pad,
}

/// The instrument at position `i` of [`Instrument::ALL`].
pub open spec fn instrument_at(i: int) -> Instrument {
    if i == 0 {
        Instrument::Drums
    } else if i == 1 {
        Instrument::Bass
    } else if i == 2 {
        Instrument::Lead
    } else {
        Instrument::Pad
    }
}

/// Display name of an instrument.
pub open spec fn instrument_name(instrument: Instrument) -> Seq<char> {
    match instrument {
        Instrument::Drums => "drums"@,
        Instrument::Bass => "bass"@,
        Instrument::Lead => "lead"@,
        Instrument::Pad => "pad"@,
    }
}

impl Instrument {
    /// Every instrument, in [`Instrument::index`] order.
    pub const ALL: [Instrument; 4] = [
        Instrument::Drums,
        Instrument::Bass,
        Instrument::Lead,
        Instrument::Pad,
    ];

    /// Position in [`Instrument::ALL`], in the model.
    pub open spec fn slot(self) -> int {
        match self {
            Instrument::Drums => 0,
            Instrument::Bass => 1,
            Instrument::Lead => 2,
            Instrument::Pad => 3,
        }
    }

    /// Position in [`Instrument::ALL`], for indexing per-layer arrays.
    pub fn index(self) -> (i: usize)
        ensures
            i == self.slot(),
            i < 4,
            instrument_at(i as int) == self,
    {
        match self {
            Instrument::Drums => 0,
            Instrument::Bass => 1,
            Instrument::Lead => 2,
            Instrument::Pad => 3,
        }
    }

    /// Display name.
    pub fn name(self) -> (name: &'static str)
        ensures
            name@ == instrument_name(self),
    {
        match self {
            Instrument::Drums => "drums",
            Instrument::Bass => "bass",
            Instrument::Lead => "lead",
            Instrument::Pad => "pad",
        }
    }
}

/// A theme. Each has its own key, tempo and, over in the sim, its own rules
/// for how the world behaves while it plays.
#[derive(Clone, Copy, Debug, PartialEq, Eq, Hash, Structural)]
pub enum Motif {
    /// C major, easy-going. Stompers wander.
    Wander,
    /// A minor, fast. Stompers hunt the player.
    Pursuit,
    /// F major, slow. Stompers sleep.
    Lullaby,
}

/// Display name of a motif.
pub open spec fn motif_name(motif: Motif) -> Seq<char> {
    match motif {
        Motif::Wander => "wander"@,
        Motif::Pursuit => "pursuit"@,
        Motif::Lullaby => "lullaby"@,
    }
}

/// Tempo, in beats per minute.
pub open spec fn tempo(motif: Motif) -> nat {
    match motif {
        Motif::Wander => 110,
        Motif::Pursuit => 132,
        Motif::Lullaby => 84,
    }
}

/// Clock units in one sixteenth step of a motif.
pub open spec fn step_length(motif: Motif) -> nat {
    match motif {
        Motif::Wander => 37800,
        Motif::Pursuit => 31500,
        Motif::Lullaby => 49500,
    }
}

/// Three-note voicing for the pad. Notes are MIDI numbers, lowest first.
#[derive(Clone, Copy, Debug, PartialEq, Eq, Hash)]
pub struct Chord {
    pub notes: [u8; 3],
}

/// The chord with these notes.
pub open spec fn chord(low: u8, mid: u8, high: u8) -> Chord {
    Chord { notes: [low, mid, high] }
}

impl Chord {
    /// A chord from its notes, lowest first.
    pub fn new(notes: [u8; 3]) -> (c: Chord)
        ensures
            c.notes == notes,
    {
        Chord { notes }
    }

    /// Lowest note, which is also the root in every voicing used here.
    pub fn root(self) -> (root: u8)
        ensures
            root == self.notes@[0],
    {
        self.notes[0]
    }
}

/// Steps within the bar on which the kick sounds, every bar.
#[verifier::opaque]
pub open spec fn kick_steps(motif: Motif) -> Seq<u8> {
    match motif {
        // x.....x...x.....
        Motif::Wander => seq![0u8, 6, 10],
        // x...x..x..x.x...
        Motif::Pursuit => seq![0u8, 4, 7, 10, 12],
        // ................
        Motif::Lullaby => seq![],
    }
}

/// Steps within the bar on which the snare sounds, every bar.
#[verifier::opaque]
pub open spec fn snare_steps(motif: Motif) -> Seq<u8> {
    match motif {
        // ....x.......x...
        Motif::Wander => seq![4u8, 12],
        // ....x.......x..x
        Motif::Pursuit => seq![4u8, 12, 15],
        // ................
        Motif::Lullaby => seq![],
    }
}

/// Steps within the bar on which the hat sounds, every bar.
#[verifier::opaque]
pub open spec fn hat_steps(motif: Motif) -> Seq<u8> {
    match motif {
        // x.x.x.x.x.x.x.x.
        Motif::Wander => seq![0u8, 2, 4, 6, 8, 10, 12, 14],
        // x.x.x.x.x.x.x.x.
        Motif::Pursuit => seq![0u8, 2, 4, 6, 8, 10, 12, 14],
        // x.......x.......
        Motif::Lullaby => seq![0u8, 8],
    }
}

/// The bass line over the whole phrase, as `(step, pitch)` pairs.
#[verifier::opaque]
pub open spec fn bass_line(motif: Motif) -> Seq<(u8, u8)> {
    match motif {
        Motif::Wander => seq![
            (0u8, C2), (6, C2), (8, G2), (12, C2),
            (16, A2), (22, A2), (24, E2), (28, A2),
            (32, F2), (38, F2), (40, C2), (44, F2),
            (48, G2), (54, G2), (56, D2), (60, G2),
        ],
        Motif::Pursuit => seq![
            (0u8, A2), (2, A2), (4, A2), (6, A2), (8, A2), (10, A2), (12, G2), (14, G2),
            (16, F2), (18, F2), (20, F2), (22, F2), (24, F2), (26, F2), (28, E2), (30, E2),
            (32, D2), (34, D2), (36, D2), (38, D2), (40, D2), (42, D2), (44, F2), (46, F2),
            (48, E2), (50, E2), (52, E2), (54, E2), (56, E2), (58, E2), (60, GS2), (62, GS2),
        ],
        Motif::Lullaby => seq![(0u8, F2), (16, BB2), (32, F2), (48, C2)],
    }
}

/// The tune over the whole phrase, as `(step, pitch)` pairs.
#[verifier::opaque]
pub open spec fn lead_line(motif: Motif) -> Seq<(u8, u8)> {
    match motif {
        Motif::Wander => seq![
            (0u8, E4), (2, G4), (4, A4), (8, G4), (12, E4), (14, D4),
            (16, C4), (20, E4), (24, A4), (26, G4), (28, E4),
            (32, F4), (36, A4), (38, C5), (40, A4), (44, G4), (46, F4),
            (48, D4), (52, G4), (56, B4), (60, D5), (62, C5),
        ],
        Motif::Pursuit => seq![
            (0u8, A4), (2, C5), (4, E5), (6, C5), (8, A4), (10, C5), (12, E5), (14, C5),
            (16, A4), (18, C5), (20, F5), (22, C5), (24, A4), (26, C5), (28, F5), (30, C5),
            (32, A4), (34, D5), (36, F5), (38, D5), (40, A4), (42, D5), (44, F5), (46, D5),
            (48, GS4), (50, B4), (52, E5), (54, B4), (56, GS4), (58, B4), (60, E5), (62, B4),
        ],
        Motif::Lullaby => seq![
            (0u8, A4), (8, C5), (16, BB4), (24, A4), (32, F4), (40, G4), (48, E4), (56, G4),
        ],
    }
}

/// The pad's chord for each bar of the phrase.
#[verifier::opaque]
pub open spec fn pad_chords(motif: Motif) -> Seq<Chord> {
    match motif {
        // C, Am, F, G.
        Motif::Wander => seq![chord(C4, E4, G4), chord(A3, C4, E4), chord(A3, C4, F4), chord(B3, D4, G4)],
        // Am, F, Dm, E.
        Motif::Pursuit => seq![chord(A3, C4, E4), chord(A3, C4, F4), chord(A3, D4, F4), chord(GS3, B3, E4)],
        // F, Bb, F, C.
        Motif::Lullaby => seq![chord(F3, A3, C4), chord(F3, BB3, D4), chord(F3, A3, C4), chord(E3, G3, C4)],
    }
}

/// One motif's notes. Drums are the steps of one bar that hit, repeated
/// every bar; bass and lead are `(step, pitch)` pairs over the whole
/// four-bar phrase; the pad is one chord per bar.
pub struct Score {
    pub kick: Vec<u8>,
    pub snare: Vec<u8>,
    pub hat: Vec<u8>,
    pub bass: Vec<(u8, u8)>,
    pub lead: Vec<(u8, u8)>,
    pub pad: [Chord; 4],
}

impl Score {
    /// Whether this is the score written for `motif`.
    pub open spec fn is_score_of(self, motif: Motif) -> bool {
        &&& self.kick@ == kick_steps(motif)
        &&& self.snare@ == snare_steps(motif)
        &&& self.hat@ == hat_steps(motif)
        &&& self.bass@ == bass_line(motif)
        &&& self.lead@ == lead_line(motif)
        &&& self.pad@ == pad_chords(motif)
    }
}

impl Motif {
    /// Display name.
    pub fn name(self) -> (name: &'static str)
        ensures
            name@ == motif_name(self),
    {
        match self {
            Motif::Wander => "wander",
            Motif::Pursuit => "pursuit",
            Motif::Lullaby => "lullaby",
        }
    }

    /// Tempo, in beats per minute.
    pub fn bpm(self) -> (bpm: u32)
        ensures
            bpm == tempo(self),
    {
        match self {
            Motif::Wander => 110,
            Motif::Pursuit => 132,
            Motif::Lullaby => 84,
        }
    }

    /// Clock units per sixteenth step: a quarter of a beat of sixty over the
    /// tempo seconds, exactly.
    pub fn step_units(self) -> (units: u32)
        ensures
            units == step_length(self),
            units * tempo(self) * STEPS_PER_BEAT == 60 * CLOCK_RATE,
    {
        match self {
            Motif::Wander => 37800,
            Motif::Pursuit => 31500,
            Motif::Lullaby => 49500,
        }
    }

    /// Clock units per beat.
    pub fn beat_units(self) -> (units: u32)
        ensures
            units == step_length(self) * STEPS_PER_BEAT,
            units * tempo(self) == 60 * CLOCK_RATE,
    {
        self.step_units() * STEPS_PER_BEAT
    }

    /// Clock units per bar.
    pub fn bar_units(self) -> (units: u32)
        ensures
            units == step_length(self) * STEPS_PER_BAR,
    {
        self.step_units() * STEPS_PER_BAR
    }

    /// The chord the motif comes home to: the first bar's pad chord.
    pub fn tonic(self) -> (tonic: Chord)
        ensures
            tonic == pad_chords(self)[0],
    {
        let score = self.score();
        score.pad[0]
    }

    /// Lowest and highest lead pitch this motif uses, for mapping pitch onto
    /// space.
    pub fn lead_range(self) -> (range: (u8, u8))
        ensures
            forall|k: int| 0 <= k < lead_line(self).len() ==>
                range.0 <= #[trigger] lead_line(self)[k].1 <= range.1,
            exists|k: int| 0 <= k < lead_line(self).len() && lead_line(self)[k].1 == range.0,
            exists|k: int| 0 <= k < lead_line(self).len() && lead_line(self)[k].1 == range.1,
    {
        proof {
            reveal(lead_line);
        }
        let score = self.score();
        let lead = &score.lead;
        let mut lo: u8 = u8::MAX;
        let mut hi: u8 = u8::MIN;
        let mut lo_at: usize = 0;
        let mut hi_at: usize = 0;
        let mut i: usize = 0;
        while i < lead.len()
            invariant
                lead@ == lead_line(self),
                lead@.len() > 0,
                i <= lead@.len(),
                lo_at < lead@.len(),
                hi_at < lead@.len(),
                forall|k: int| 0 <= k < i ==> lo <= #[trigger] lead@[k].1 <= hi,
                i > 0 ==> lead@[lo_at as int].1 == lo,
                i > 0 ==> lead@[hi_at as int].1 == hi,
            decreases lead@.len() - i,
        {
            let pitch = lead[i].1;
            if i == 0 || pitch < lo {
                lo = pitch;
                lo_at = i;
            }
            if i == 0 || pitch > hi {
                hi = pitch;
                hi_at = i;
            }
            i = i + 1;
        }
        (lo, hi)
    }

    /// The notes written for this motif.
    pub fn score(self) -> (score: Score)
        ensures
            score.is_score_of(self),
    {
        proof {
            reveal(kick_steps);
            reveal(snare_steps);
            reveal(hat_steps);
            reveal(bass_line);
            reveal(lead_line);
            reveal(pad_chords);
        }
        match self {
            Motif::Wander => Score {
                kick: vec![0u8, 6, 10],
                snare: vec![4u8, 12],
                hat: vec![0u8, 2, 4, 6, 8, 10, 12, 14],
                bass: vec![
                    (0u8, C2), (6, C2), (8, G2), (12, C2),
                    (16, A2), (22, A2), (24, E2), (28, A2),
                    (32, F2), (38, F2), (40, C2), (44, F2),
                    (48, G2), (54, G2), (56, D2), (60, G2),
                ],
                lead: vec![
                    (0u8, E4), (2, G4), (4, A4), (8, G4), (12, E4), (14, D4),
                    (16, C4), (20, E4), (24, A4), (26, G4), (28, E4),
                    (32, F4), (36, A4), (38, C5), (40, A4), (44, G4), (46, F4),
                    (48, D4), (52, G4), (56, B4), (60, D5), (62, C5),
                ],
                pad: [
                    Chord { notes: [C4, E4, G4] },
                    Chord { notes: [A3, C4, E4] },
                    Chord { notes: [A3, C4, F4] },
                    Chord { notes: [B3, D4, G4] },
                ],
            },
            Motif::Pursuit => Score {
                kick: vec![0u8, 4, 7, 10, 12],
                snare: vec![4u8, 12, 15],
                hat: vec![0u8, 2, 4, 6, 8, 10, 12, 14],
                bass: vec![
                    (0u8, A2), (2, A2), (4, A2), (6, A2), (8, A2), (10, A2), (12, G2), (14, G2),
                    (16, F2), (18, F2), (20, F2), (22, F2), (24, F2), (26, F2), (28, E2), (30, E2),
                    (32, D2), (34, D2), (36, D2), (38, D2), (40, D2), (42, D2), (44, F2), (46, F2),
                    (48, E2), (50, E2), (52, E2), (54, E2), (56, E2), (58, E2), (60, GS2), (62, GS2),
                ],
                lead: vec![
                    (0u8, A4), (2, C5), (4, E5), (6, C5), (8, A4), (10, C5), (12, E5), (14, C5),
                    (16, A4), (18, C5), (20, F5), (22, C5), (24, A4), (26, C5), (28, F5), (30, C5),
                    (32, A4), (34, D5), (36, F5), (38, D5), (40, A4), (42, D5), (44, F5), (46, D5),
                    (48, GS4), (50, B4), (52, E5), (54, B4), (56, GS4), (58, B4), (60, E5), (62, B4),
                ],
                pad: [
                    Chord { notes: [A3, C4, E4] },
                    Chord { notes: [A3, C4, F4] },
                    Chord { notes: [A3, D4, F4] },
                    Chord { notes: [GS3, B3, E4] },
                ],
            },
            Motif::Lullaby => Score {
                kick: Vec::new(),
                snare: Vec::new(),
                hat: vec![0u8, 8],
                bass: vec![(0u8, F2), (16, BB2), (32, F2), (48, C2)],
                lead: vec![
                    (0u8, A4), (8, C5), (16, BB4), (24, A4), (32, F4), (40, G4), (48, E4), (56, G4),
                ],
                pad: [
                    Chord { notes: [F3, A3, C4] },
                    Chord { notes: [F3, BB3, D4] },
                    Chord { notes: [F3, A3, C4] },
                    Chord { notes: [E3, G3, C4] },
                ],
            },
        }
    }
}


/// One phrase of the song: a motif, and which instruments the arrangement
/// gives it, indexed by [`Instrument::index`].
#[derive(Clone, Copy, Debug, PartialEq, Eq)]
pub struct Section {
    pub motif: Motif,
    pub arranged: [bool; 4],
}

impl Section {
    /// A section of `motif` played by the `arranged` instruments.
    pub fn new(motif: Motif, arranged: [bool; 4]) -> (section: Section)
        ensures
            section.motif == motif,
            section.arranged == arranged,
    {
        Section { motif, arranged }
    }
}

/// The song form, section by section. Loops back to the top when it runs out.
pub open spec fn song_section(i: int) -> Section {
    if i == 0 {
        // Intro: bass and tune only, so the world starts calm.
        Section { motif: Motif::Wander, arranged: [false, true, true, false] }
    } else if i == 1 {
        Section { motif: Motif::Wander, arranged: [true, true, true, true] }
    } else if i == 2 {
        Section { motif: Motif::Pursuit, arranged: [true, true, true, true] }
    } else if i == 3 {
        // The pad drops out: nothing charges the fermata in the second chase.
        Section { motif: Motif::Pursuit, arranged: [true, true, true, false] }
    } else if i == 4 {
        Section { motif: Motif::Lullaby, arranged: [true, true, true, true] }
    } else {
        Section { motif: Motif::Wander, arranged: [true, true, true, true] }
    }
}

/// The song form.
pub fn song() -> (form: [Section; 6])
    ensures
        forall|i: int| 0 <= i < SONG_LEN ==> #[trigger] form@[i] == song_section(i),
{
    [
        Section { motif: Motif::Wander, arranged: [false, true, true, false] },
        Section { motif: Motif::Wander, arranged: [true, true, true, true] },
        Section { motif: Motif::Pursuit, arranged: [true, true, true, true] },
        Section { motif: Motif::Pursuit, arranged: [true, true, true, false] },
        Section { motif: Motif::Lullaby, arranged: [true, true, true, true] },
        Section { motif: Motif::Wander, arranged: [true, true, true, true] },
    ]
}

/// Something the music did. The sim and the frontend both consume these.
#[derive(Clone, Copy, Debug, PartialEq, Eq)]
pub enum Event {
    /// A note sounded. `step` is the position within the bar, `0..16`, and
    /// `velocity` is in thousandths, louder on the beat.
    Note { instrument: Instrument, pitch: u8, velocity: u32, step: u32 },
    /// The pad changed chord, at the top of a bar.
    Chord(Chord),
    /// A new section began.
    Section { motif: Motif },
    /// An instrument was hushed or let sound again.
    Layer { instrument: Instrument, on: bool },
}

/// One layer's state, for the HUD.
#[derive(Clone, Copy, Debug, PartialEq, Eq, Structural)]
pub struct Layer {
    /// The arrangement includes this instrument in the current section.
    pub arranged: bool,
    /// The player is hushing it.
    pub muted: bool,
}

impl Layer {
    /// Whether the layer is sounding, and so acting on the world.
    pub fn active(self) -> (active: bool)
        ensures
            active == (self.arranged && !self.muted),
    {
        self.arranged && !self.muted
    }
}

impl Default for Layer {
    fn default() -> (layer: Layer)
        ensures
            !layer.arranged,
            !layer.muted,
    {
        Layer { arranged: false, muted: false }
    }
}

/// Where the sequencer is, for the HUD and the renderer's pulse.
#[derive(Clone, Copy, Debug, PartialEq, Eq)]
pub struct Position {
    /// Index into the song form.
    pub section: usize,
    pub motif: Motif,
    /// Bar within the section, `0..4`.
    pub bar: u32,
    /// Beat within the bar, `0..4`.
    pub beat: u32,
    /// Step within the bar, `0..16`.
    pub step: u32,
    /// Clock units spent in the current step, less than `step_length`.
    pub step_elapsed: u32,
    /// Clock units the current step lasts.
    pub step_length: u32,
    /// Indexed by [`Instrument::index`].
    pub layers: [Layer; 4],
}

/// What a [`Position`] says of a playhead: the section and its motif, the
/// bar, beat and step the playhead is on, how far into the step it is and
/// how long the step lasts, and each layer's arrangement and hush.
pub open spec fn reports(position: Position, p: Playhead) -> bool {
    &&& position.section == p.section
    &&& position.motif == p.motif()
    &&& position.bar == p.step / 16
    &&& position.beat == (p.step % 16) / 4
    &&& position.step == p.step % 16
    &&& position.step_elapsed == p.clock
    &&& position.step_length == step_length(p.motif())
    &&& forall|i: int|
        0 <= i < 4 ==> (#[trigger] position.layers@[i]).arranged == song_section(
            p.section,
        ).arranged@[i] && position.layers@[i].muted == p.muted[i]
}

/// The sequencer's state as the model sees it.
pub struct Playhead {
    /// Index into the song form.
    pub section: int,
    /// Step within the section.
    pub step: int,
    /// Clock units banked toward the next step.
    pub clock: int,
    /// Whether the opening downbeat has sounded.
    pub started: bool,
    /// Hushed instruments, by [`Instrument::slot`].
    pub muted: Seq<bool>,
    /// A jump to the next section is queued for the next bar.
    pub skip: bool,
}

impl Playhead {
    /// The motif of the current section.
    pub open spec fn motif(self) -> Motif {
        song_section(self.section).motif
    }

    /// Where a sequencer can be.
    pub open spec fn well_formed(self) -> bool {
        &&& 0 <= self.section < SONG_LEN
        &&& 0 <= self.step < STEPS_PER_SECTION
        &&& 0 <= self.clock < step_length(self.motif())
        &&& self.muted.len() == 4
    }

    /// Whether an instrument is sounding: arranged here and not hushed.
    pub open spec fn is_active(self, instrument: Instrument) -> bool {
        song_section(self.section).arranged@[instrument.slot()] && !self.muted[instrument.slot()]
    }

    /// The same playhead at another step and clock.
    pub open spec fn at(self, section: int, step: int, clock: int, skip: bool) -> Playhead {
        Playhead {
            section,
            step,
            clock,
            started: self.started,
            muted: self.muted,
            skip,
        }
    }
}

/// Louder on the beat, softer off it, in thousandths.
pub open spec fn accent(step: int) -> int {
    if step % 4 == 0 {
        1000
    } else if step % 2 == 0 {
        800
    } else {
        650
    }
}

/// A drum note if `steps` holds this step of the bar, at `gain` thousandths
/// of the accent.
pub open spec fn drum_hit(steps: Seq<u8>, bar_step: int, pitch: u8, gain: int) -> Seq<Event> {
    if steps.contains(bar_step as u8) {
        seq![
            Event::Note {
                instrument: Instrument::Drums,
                pitch,
                velocity: (accent(bar_step) * gain / 1000) as u32,
                step: bar_step as u32,
            },
        ]
    } else {
        seq![]
    }
}

/// The notes of `line` that fall on `step` of the phrase, in score order.
pub open spec fn line_events(instrument: Instrument, line: Seq<(u8, u8)>, step: int) -> Seq<Event>
    decreases line.len(),
{
    if line.len() == 0 {
        seq![]
    } else {
        let rest = line_events(instrument, line.drop_last(), step);
        if line.last().0 as int == step {
            rest.push(
                Event::Note {
                    instrument,
                    pitch: line.last().1,
                    velocity: accent(step % 16) as u32,
                    step: (step % 16) as u32,
                },
            )
        } else {
            rest
        }
    }
}

/// Everything that sounds on the playhead's step: drums, bass, lead, then
/// the pad's chord at the top of a bar, each only while active.
#[verifier::opaque]
pub open spec fn sounding(p: Playhead) -> Seq<Event> {
    let motif = p.motif();
    let bar_step = p.step % 16;
    let drums = if p.is_active(Instrument::Drums) {
        drum_hit(kick_steps(motif), bar_step, KICK, 1000) + drum_hit(
            snare_steps(motif),
            bar_step,
            SNARE,
            900,
        ) + drum_hit(hat_steps(motif), bar_step, HAT, 500)
    } else {
        seq![]
    };
    let bass = if p.is_active(Instrument::Bass) {
        line_events(Instrument::Bass, bass_line(motif), p.step)
    } else {
        seq![]
    };
    let lead = if p.is_active(Instrument::Lead) {
        line_events(Instrument::Lead, lead_line(motif), p.step)
    } else {
        seq![]
    };
    let pad = if p.is_active(Instrument::Pad) && bar_step == 0 {
        seq![Event::Chord(pad_chords(motif)[p.step / 16])]
    } else {
        seq![]
    };
    drums + bass + lead + pad
}

/// What sounds depends only on where the playhead is and what is hushed.
proof fn lemma_sounding_depends_on_place(p: Playhead, q: Playhead)
    requires
        p.section == q.section,
        p.step == q.step,
        p.muted == q.muted,
    ensures
        sounding(p) == sounding(q),
{
    reveal(sounding);
}

/// One step forward: the next step of the phrase, or at the end of a bar
/// with a jump queued or at the end of the phrase, the top of the next
/// section, announced.
pub open spec fn stepped(p: Playhead) -> (Playhead, Seq<Event>) {
    let next = p.step + 1;
    if next % 16 != 0 {
        (p.at(p.section, next, 0, p.skip), seq![])
    } else if p.skip || next >= STEPS_PER_SECTION {
        let section = (p.section + 1) % (SONG_LEN as int);
        (
            p.at(section, 0, 0, false),
            seq![Event::Section { motif: song_section(section).motif }],
        )
    } else {
        (p.at(p.section, next, 0, p.skip), seq![])
    }
}

/// Spend `budget` clock units: a step each time a whole step's worth is
/// banked, and what is left over stays banked.
pub open spec fn run(p: Playhead, budget: int) -> (Playhead, Seq<Event>)
    decreases budget,
{
    let unit = step_length(p.motif()) as int;
    if budget < unit {
        (p.at(p.section, p.step, budget, p.skip), seq![])
    } else {
        let (q, announced) = stepped(p);
        let (r, rest) = run(q, budget - unit);
        (r, announced + sounding(q) + rest)
    }
}

/// Move `dt` clock units along the song. The first move also announces the
/// opening section and sounds its downbeat.
pub open spec fn advanced(p: Playhead, dt: int) -> (Playhead, Seq<Event>) {
    let opened = Playhead {
        section: p.section,
        step: p.step,
        clock: p.clock,
        started: true,
        muted: p.muted,
        skip: p.skip,
    };
    let opening = if p.started {
        seq![]
    } else {
        seq![Event::Section { motif: p.motif() }] + sounding(p)
    };
    let (end, rest) = run(opened, p.clock + dt);
    (end, opening + rest)
}

/// The top of the song, before anything has sounded.
pub open spec fn song_top() -> Playhead {
    Playhead {
        section: 0,
        step: 0,
        clock: 0,
        started: false,
        muted: seq![false, false, false, false],
        skip: false,
    }
}

/// Walks the song. Advanced by the sim, one tick at a time.
#[derive(Debug)]
pub struct Sequencer {
    section: usize,
    /// Step within the section.
    step: u32,
    /// Clock units into the current step.
    clock: u32,
    started: bool,
    muted: [bool; 4],
    /// Jump to the next section at the next bar.
    skip: bool,
}

impl View for Sequencer {
    type V = Playhead;

    closed spec fn view(&self) -> Playhead {
        Playhead {
            section: self.section as int,
            step: self.step as int,
            clock: self.clock as int,
            started: self.started,
            muted: self.muted@,
            skip: self.skip,
        }
    }
}

/// What each step's velocity is: louder on the beat.
fn accent_of(step: u32) -> (velocity: u32)
    ensures
        velocity == accent(step as int),
        velocity <= 1000,
{
    if step % STEPS_PER_BEAT == 0 {
        1000
    } else if step % 2 == 0 {
        800
    } else {
        650
    }
}

/// Append a drum note if `steps` holds `bar_step`.
fn push_drum(events: &mut Vec<Event>, steps: &Vec<u8>, bar_step: u32, pitch: u8, gain: u32)
    requires
        bar_step < 16,
        gain <= 1000,
    ensures
        final(events)@ == old(events)@ + drum_hit(steps@, bar_step as int, pitch, gain as int),
{
    let mut found = false;
    let mut i: usize = 0;
    while i < steps.len()
        invariant
            i <= steps@.len(),
            bar_step < 16,
            found == (exists|j: int| 0 <= j < i && steps@[j] == bar_step as u8),
        decreases steps@.len() - i,
    {
        if steps[i] as u32 == bar_step {
            found = true;
        }
        i = i + 1;
    }
    if found {
        let accent = accent_of(bar_step);
        assert(accent * gain <= 1000 * 1000) by (nonlinear_arith)
            requires
                accent <= 1000,
                gain <= 1000,
        ;
        let velocity = accent * gain / 1000;
        events.push(Event::Note { instrument: Instrument::Drums, pitch, velocity, step: bar_step });
    }
}

/// Append the notes of `line` that fall on `step` of the phrase.
fn push_line(events: &mut Vec<Event>, instrument: Instrument, line: &Vec<(u8, u8)>, step: u32)
    requires
        step < STEPS_PER_SECTION,
    ensures
        final(events)@ == old(events)@ + line_events(instrument, line@, step as int),
{
    let mut i: usize = 0;
    while i < line.len()
        invariant
            i <= line@.len(),
            step < STEPS_PER_SECTION,
            events@ == old(events)@ + line_events(instrument, line@.take(i as int), step as int),
        decreases line@.len() - i,
    {
        proof {
            assert(line@.take(i + 1).drop_last() == line@.take(i as int));
        }
        let (at, pitch) = line[i];
        if at as u32 == step {
            let bar_step = step % STEPS_PER_BAR;
            let velocity = accent_of(bar_step);
            events.push(Event::Note { instrument, pitch, velocity, step: bar_step });
        }
        i = i + 1;
    }
    proof {
        assert(line@.take(i as int) == line@);
    }
}

impl Sequencer {
    /// A sequencer is always on a section of the song, on a step of its
    /// phrase, with less than a step banked.
    #[verifier::type_invariant]
    spec fn in_song(self) -> bool {
        &&& self.section < SONG_LEN
        &&& self.step < STEPS_PER_SECTION
        &&& self.clock < step_length(song_section(self.section as int).motif)
    }

    /// Start at the top of the song. Nothing sounds until the first
    /// [`Sequencer::advance`].
    pub fn new() -> (sequencer: Sequencer)
        ensures
            sequencer@ == song_top(),
    {
        let sequencer = Sequencer {
            section: 0,
            step: 0,
            clock: 0,
            started: false,
            muted: [false; 4],
            skip: false,
        };
        proof {
            assert(sequencer.muted@ == seq![false, false, false, false]);
        }
        sequencer
    }

    /// The model is always well formed.
    pub fn playhead_is_well_formed(&self)
        ensures
            self@.well_formed(),
    {
        proof {
            use_type_invariant(self);
        }
    }

    /// Current section.
    pub fn section(&self) -> (section: Section)
        ensures
            section == song_section(self@.section),
    {
        proof {
            use_type_invariant(self);
        }
        let form = song();
        form[self.section]
    }

    /// Current motif.
    pub fn motif(&self) -> (motif: Motif)
        ensures
            motif == self@.motif(),
    {
        self.section().motif
    }

    /// Whether an instrument is sounding right now.
    pub fn is_active(&self, instrument: Instrument) -> (active: bool)
        ensures
            active == self@.is_active(instrument),
    {
        let i = instrument.index();
        self.section().arranged[i] && !self.muted[i]
    }

    /// How many instruments are sounding right now.
    pub fn active_count(&self) -> (count: u32)
        ensures
            count == (if self@.is_active(Instrument::Drums) { 1int } else { 0 }) + (if self@.is_active(
                Instrument::Bass,
            ) {
                1int
            } else {
                0
            }) + (if self@.is_active(Instrument::Lead) {
                1int
            } else {
                0
            }) + (if self@.is_active(Instrument::Pad) {
                1int
            } else {
                0
            }),
    {
        let mut count: u32 = 0;
        if self.is_active(Instrument::Drums) {
            count = count + 1;
        }
        if self.is_active(Instrument::Bass) {
            count = count + 1;
        }
        if self.is_active(Instrument::Lead) {
            count = count + 1;
        }
        if self.is_active(Instrument::Pad) {
            count = count + 1;
        }
        count
    }

    /// Hush or unhush an instrument, effective immediately. Notes already
    /// sounding are the frontend's to finish; new ones stop at once, the way
    /// a kill switch works. Appends an [`Event::Layer`] if anything changed.
    pub fn set_muted(&mut self, instrument: Instrument, muted: bool, events: &mut Vec<Event>)
        ensures
            final(self)@ == (Playhead { muted: old(self)@.muted.update(instrument.slot(), muted), ..old(self)@ }),
            old(self)@.muted[instrument.slot()] == muted ==> final(events)@ == old(events)@,
            old(self)@.muted[instrument.slot()] != muted ==> final(events)@ == old(events)@.push(
                Event::Layer { instrument, on: !muted },
            ),
    {
        proof {
            use_type_invariant(&*self);
        }
        let i = instrument.index();
        if self.muted[i] == muted {
            proof {
                assert(self.muted@.update(i as int, muted) == self.muted@);
            }
            return;
        }
        self.muted[i] = muted;
        events.push(Event::Layer { instrument, on: !muted });
    }

    /// Whether the player is hushing an instrument.
    pub fn is_muted(&self, instrument: Instrument) -> (muted: bool)
        ensures
            muted == self@.muted[instrument.slot()],
    {
        self.muted[instrument.index()]
    }

    /// Queue a jump to the next section at the next bar.
    pub fn request_skip(&mut self)
        ensures
            final(self)@ == (Playhead { skip: true, ..old(self)@ }),
    {
        proof {
            use_type_invariant(&*self);
        }
        self.skip = true;
    }

    /// Snapshot for the HUD.
    pub fn position(&self) -> (position: Position)
        ensures
            reports(position, self@),
            position.bar < BARS_PER_SECTION,
            position.beat < BEATS_PER_BAR,
            position.step < STEPS_PER_BAR,
            position.step_elapsed < position.step_length,
    {
        proof {
            use_type_invariant(self);
        }
        let section = self.section();
        let layers = [
            Layer { arranged: section.arranged[0], muted: self.muted[0] },
            Layer { arranged: section.arranged[1], muted: self.muted[1] },
            Layer { arranged: section.arranged[2], muted: self.muted[2] },
            Layer { arranged: section.arranged[3], muted: self.muted[3] },
        ];
        Position {
            section: self.section,
            motif: section.motif,
            bar: self.step / STEPS_PER_BAR,
            beat: (self.step % STEPS_PER_BAR) / STEPS_PER_BEAT,
            step: self.step % STEPS_PER_BAR,
            step_elapsed: self.clock,
            step_length: section.motif.step_units(),
            layers,
        }
    }

    /// Move `dt` clock units along the song, appending whatever sounded.
    #[verifier::spinoff_prover]
    #[verifier::rlimit(40)]
    pub fn advance(&mut self, dt: u32, events: &mut Vec<Event>)
        ensures
            final(self)@ == advanced(old(self)@, dt as int).0,
            final(events)@ == old(events)@ + advanced(old(self)@, dt as int).1,
            final(self)@.well_formed(),
    {
        proof {
            use_type_invariant(&*self);
        }
        let ghost target = advanced(old(self)@, dt as int);
        let ghost opened = Playhead { started: true, ..old(self)@ };
        if !self.started {
            self.started = true;
            events.push(Event::Section { motif: self.motif() });
            let ghost before = events@;
            self.emit(events);
            proof {
                assert(before == old(events)@ + seq![Event::Section { motif: old(self)@.motif() }]);
            }
        }
        proof {
            assert(self@ == opened);
            lemma_sounding_depends_on_place(opened, old(self)@);
            assert(events@ == old(events)@ + (if old(self)@.started {
                seq![]
            } else {
                seq![Event::Section { motif: old(self)@.motif() }] + sounding(old(self)@)
            }));
        }
        let mut clock: u64 = self.clock as u64 + dt as u64;
        while clock >= self.motif().step_units() as u64
            invariant
                run(self@, clock as int).0 == target.0,
                events@ + run(self@, clock as int).1 == old(events)@ + target.1,
            decreases clock,
        {
            proof {
                use_type_invariant(&*self);
            }
            let ghost before = self@;
            let ghost before_events = events@;
            clock = clock - self.motif().step_units() as u64;
            self.step_forward(events);
            let ghost after_step = events@;
            self.emit(events);
            proof {
                let (q, announced) = stepped(before);
                assert(run(before, clock + step_length(before.motif())) == (
                    run(q, clock as int).0,
                    announced + sounding(q) + run(q, clock as int).1,
                ));
                assert(self@ == q);
                assert(events@ == before_events + announced + sounding(q));
            }
        }
        proof {
            use_type_invariant(&*self);
        }
        self.clock = clock as u32;
        proof {
            use_type_invariant(&*self);
        }
    }

    /// Advance one step, handling the bar and section boundaries.
    fn step_forward(&mut self, events: &mut Vec<Event>)
        ensures
            final(self)@ == stepped(old(self)@).0,
            final(events)@ == old(events)@ + stepped(old(self)@).1,
    {
        proof {
            use_type_invariant(&*self);
        }
        let next = self.step + 1;
        if next % STEPS_PER_BAR != 0 {
            *self = Sequencer {
                section: self.section,
                step: next,
                clock: 0,
                started: self.started,
                muted: self.muted,
                skip: self.skip,
            };
        } else if self.skip || next >= STEPS_PER_SECTION {
            let section = (self.section + 1) % SONG_LEN;
            *self = Sequencer {
                section,
                step: 0,
                clock: 0,
                started: self.started,
                muted: self.muted,
                skip: false,
            };
            events.push(Event::Section { motif: self.motif() });
        } else {
            *self = Sequencer {
                section: self.section,
                step: next,
                clock: 0,
                started: self.started,
                muted: self.muted,
                skip: self.skip,
            };
        }
    }

    /// Everything that sounds on the current step.
    #[verifier::spinoff_prover]
    #[verifier::rlimit(40)]
    fn emit(&self, events: &mut Vec<Event>)
        ensures
            final(events)@ == old(events)@ + sounding(self@),
    {
        proof {
            use_type_invariant(self);
        }
        let motif = self.motif();
        let score = motif.score();
        let bar_step = self.step % STEPS_PER_BAR;
        let ghost e0 = old(events)@;
        if self.is_active(Instrument::Drums) {
            push_drum(events, &score.kick, bar_step, KICK, 1000);
            push_drum(events, &score.snare, bar_step, SNARE, 900);
            push_drum(events, &score.hat, bar_step, HAT, 500);
        }
        let ghost e1 = events@;
        if self.is_active(Instrument::Bass) {
            push_line(events, Instrument::Bass, &score.bass, self.step);
        }
        let ghost e2 = events@;
        if self.is_active(Instrument::Lead) {
            push_line(events, Instrument::Lead, &score.lead, self.step);
        }
        let ghost e3 = events@;
        if self.is_active(Instrument::Pad) && bar_step == 0 {
            let bar = (self.step / STEPS_PER_BAR) as usize;
            events.push(Event::Chord(score.pad[bar]));
        }
        proof {
            reveal(sounding);
            let p = self@;
            let drums = if p.is_active(Instrument::Drums) {
                drum_hit(kick_steps(motif), bar_step as int, KICK, 1000) + drum_hit(
                    snare_steps(motif),
                    bar_step as int,
                    SNARE,
                    900,
                ) + drum_hit(hat_steps(motif), bar_step as int, HAT, 500)
            } else {
                seq![]
            };
            assert(e1 == e0 + drums);
            assert(events@ == e0 + sounding(p));
        }
    }
}

impl Clone for Sequencer {
    fn clone(&self) -> (copy: Sequencer)
        ensures
            copy@ == self@,
    {
        proof {
            use_type_invariant(self);
        }
        Sequencer {
            section: self.section,
            step: self.step,
            clock: self.clock,
            started: self.started,
            muted: self.muted,
            skip: self.skip,
        }
    }
}

impl Default for Sequencer {
    fn default() -> (sequencer: Sequencer)
        ensures
            sequencer@ == song_top(),
    {
        Sequencer::new()
    }
}


/// The motifs, in the order the bake lists walk them.
pub open spec fn motifs() -> Seq<Motif> {
    seq![Motif::Wander, Motif::Pursuit, Motif::Lullaby]
}

/// Whether a `(step, pitch)` line ever plays `pitch`.
pub open spec fn line_plays(line: Seq<(u8, u8)>, pitch: u8) -> bool {
    exists|k: int| 0 <= k < line.len() && #[trigger] line[k].1 == pitch
}

/// Whether the pad plays `chord` anywhere in the song.
pub open spec fn pad_plays(chord: Chord) -> bool {
    exists|motif: Motif, bar: int| 0 <= bar < 4 && #[trigger] pad_chords(motif)[bar] == chord
}

/// Whether an instrument plays `pitch` anywhere in the song.
pub open spec fn played(instrument: Instrument, pitch: u8) -> bool {
    match instrument {
        Instrument::Drums => pitch == KICK || pitch == SNARE || pitch == HAT,
        Instrument::Bass => exists|motif: Motif| #[trigger] line_plays(bass_line(motif), pitch),
        Instrument::Lead => exists|motif: Motif| #[trigger] line_plays(lead_line(motif), pitch),
        Instrument::Pad => exists|chord: Chord| pad_plays(chord) && #[trigger] chord.notes@.contains(
            pitch,
        ),
    }
}

/// Each pitch lower than the next: sorted, and nothing twice.
pub open spec fn rising(s: Seq<u8>) -> bool {
    forall|i: int, j: int| 0 <= i < j < s.len() ==> s[i] < s[j]
}

/// Chords ordered by their notes, lowest note first.
pub open spec fn chord_before(a: Chord, b: Chord) -> bool {
    ||| a.notes@[0] < b.notes@[0]
    ||| a.notes@[0] == b.notes@[0] && a.notes@[1] < b.notes@[1]
    ||| a.notes@[0] == b.notes@[0] && a.notes@[1] == b.notes@[1] && a.notes@[2] < b.notes@[2]
}

/// Each chord before the next: sorted, and nothing twice.
pub open spec fn chords_rising(s: Seq<Chord>) -> bool {
    forall|i: int, j: int| 0 <= i < j < s.len() ==> chord_before(s[i], s[j])
}

/// What a sequence holds after an insertion: what it held, and the new item.
proof fn lemma_insert_contains<T>(before: Seq<T>, i: int, item: T)
    requires
        0 <= i <= before.len(),
    ensures
        forall|x: T| #[trigger] before.insert(i, item).contains(x) <==> (before.contains(x) || x == item),
{
    let after = before.insert(i, item);
    assert forall|x: T| #[trigger] after.contains(x) <==> (before.contains(x) || x == item) by {
        if before.contains(x) {
            let k = choose|k: int| 0 <= k < before.len() && before[k] == x;
            if k < i {
                assert(after[k] == x);
            } else {
                assert(after[k + 1] == x);
            }
        }
        if x == item {
            assert(after[i] == x);
        }
        if after.contains(x) {
            let k = choose|k: int| 0 <= k < after.len() && after[k] == x;
            if k < i {
                assert(before[k] == x);
            } else if k > i {
                assert(before[k - 1] == x);
            }
        }
    }
}

/// Add `pitch` to a rising list, keeping it rising.
pub(crate) fn insert_pitch(out: &mut Vec<u8>, pitch: u8)
    requires
        rising(old(out)@),
    ensures
        rising(final(out)@),
        forall|x: u8| final(out)@.contains(x) <==> (old(out)@.contains(x) || x == pitch),
{
    let mut i: usize = 0;
    while i < out.len() && out[i] < pitch
        invariant
            i <= out@.len(),
            forall|j: int| 0 <= j < i ==> out@[j] < pitch,
        decreases out@.len() - i,
    {
        i = i + 1;
    }
    if i < out.len() && out[i] == pitch {
        proof {
            assert(out@[i as int] == pitch);
        }
        return;
    }
    let ghost before = out@;
    out.insert(i, pitch);
    proof {
        assert forall|a: int, b: int| 0 <= a < b < out@.len() implies out@[a] < out@[b] by {
            if b < i {
            } else if b == i {
            } else if a < i {
                assert(before[a] < pitch);
                assert(pitch < before[i as int]);
            } else if a == i {
                assert(pitch < before[i as int]);
            } else {
            }
        }
        lemma_insert_contains(before, i as int, pitch);
    }
}

/// Add every pitch of a `(step, pitch)` line to a rising list.
fn insert_line(out: &mut Vec<u8>, line: &Vec<(u8, u8)>)
    requires
        rising(old(out)@),
    ensures
        rising(final(out)@),
        forall|x: u8|
            #![trigger final(out)@.contains(x)]
            final(out)@.contains(x) <==> (old(out)@.contains(x) || line_plays(line@, x)),
{
    let mut i: usize = 0;
    while i < line.len()
        invariant
            i <= line@.len(),
            rising(out@),
            forall|x: u8|
                out@.contains(x) <==> (old(out)@.contains(x) || line_plays(line@.take(i as int), x)),
        decreases line@.len() - i,
    {
        let ghost before = out@;
        insert_pitch(out, line[i].1);
        proof {
            assert forall|x: u8|
                out@.contains(x) <==> (old(out)@.contains(x) || line_plays(
                    line@.take(i + 1),
                    x,
                )) by {
                if line_plays(line@.take(i as int), x) {
                    let k = choose|k: int| 0 <= k < i && #[trigger] line@.take(i as int)[k].1 == x;
                    assert(line@.take(i + 1)[k].1 == x);
                }
                if x == line@[i as int].1 {
                    assert(line@.take(i + 1)[i as int].1 == x);
                }
                if line_plays(line@.take(i + 1), x) {
                    let k = choose|k: int| 0 <= k < i + 1 && #[trigger] line@.take(i + 1)[k].1 == x;
                    if k < i {
                        assert(line@.take(i as int)[k].1 == x);
                    }
                }
            }
        }
        i = i + 1;
    }
    proof {
        assert(line@.take(i as int) == line@);
    }
}

/// Add `chord` to a rising list of chords, keeping it rising.
#[verifier::rlimit(30)]
fn insert_chord(out: &mut Vec<Chord>, chord: Chord)
    requires
        chords_rising(old(out)@),
    ensures
        chords_rising(final(out)@),
        forall|c: Chord| final(out)@.contains(c) <==> (old(out)@.contains(c) || c == chord),
{
    let mut i: usize = 0;
    while i < out.len() && is_before(&out[i], &chord)
        invariant
            i <= out@.len(),
            forall|j: int| 0 <= j < i ==> chord_before(out@[j], chord),
        decreases out@.len() - i,
    {
        i = i + 1;
    }
    if i < out.len() && !is_before(&chord, &out[i]) {
        proof {
            assert(out@[i as int].notes =~= chord.notes);
            assert(out@[i as int] == chord);
        }
        return;
    }
    let ghost before = out@;
    out.insert(i, chord);
    proof {
        assert forall|a: int, b: int| 0 <= a < b < out@.len() implies chord_before(
            out@[a],
            out@[b],
        ) by {
            if b < i {
            } else if b == i {
            } else if a < i {
                assert(chord_before(before[a], chord));
                assert(chord_before(chord, before[i as int]));
                if b - 1 > i {
                    assert(chord_before(before[i as int], before[b - 1]));
                }
            } else if a == i {
                assert(chord_before(chord, before[i as int]));
                if b - 1 > i {
                    assert(chord_before(before[i as int], before[b - 1]));
                }
            } else {
                assert(chord_before(before[a - 1], before[b - 1]));
            }
        }
        lemma_insert_contains(before, i as int, chord);
    }
}

/// Whether `a` comes before `b` in chord order.
fn is_before(a: &Chord, b: &Chord) -> (before: bool)
    ensures
        before == chord_before(*a, *b),
{
    a.notes[0] < b.notes[0] || (a.notes[0] == b.notes[0] && a.notes[1] < b.notes[1]) || (a.notes[0]
        == b.notes[0] && a.notes[1] == b.notes[1] && a.notes[2] < b.notes[2])
}

/// Every chord the pad plays anywhere in the song, sorted and deduplicated.
/// The frontend bakes one buffer per entry.
pub fn chords() -> (out: Vec<Chord>)
    ensures
        chords_rising(out@),
        forall|c: Chord| out@.contains(c) <==> pad_plays(c),
{
    let mut out: Vec<Chord> = Vec::new();
    let wander = Motif::Wander.score();
    let pursuit = Motif::Pursuit.score();
    let lullaby = Motif::Lullaby.score();
    let all = [wander.pad, pursuit.pad, lullaby.pad];
    let ghost from = seq![Motif::Wander, Motif::Pursuit, Motif::Lullaby];
    let mut m: usize = 0;
    while m < 3
        invariant
            m <= 3,
            chords_rising(out@),
            forall|k: int| 0 <= k < 3 ==> #[trigger] all@[k]@ == pad_chords(from[k]),
            forall|c: Chord|
                out@.contains(c) <==> (exists|k: int, bar: int|
                    0 <= k < m && 0 <= bar < 4 && #[trigger] pad_chords(from[k])[bar] == c),
        decreases 3 - m,
    {
        let mut b: usize = 0;
        while b < 4
            invariant
                m < 3,
                b <= 4,
                chords_rising(out@),
                forall|k: int| 0 <= k < 3 ==> #[trigger] all@[k]@ == pad_chords(from[k]),
                forall|c: Chord|
                    out@.contains(c) <==> ((exists|k: int, bar: int|
                        0 <= k < m && 0 <= bar < 4 && #[trigger] pad_chords(from[k])[bar] == c) || (
                    exists|bar: int| 0 <= bar < b && #[trigger] pad_chords(from[m as int])[bar] == c)),
            decreases 4 - b,
        {
            let ghost before = out@;
            insert_chord(&mut out, all[m][b]);
            proof {
                assert(all@[m as int]@[b as int] == pad_chords(from[m as int])[b as int]);
            }
            b = b + 1;
        }
        m = m + 1;
    }
    proof {
        assert forall|c: Chord| out@.contains(c) <==> pad_plays(c) by {
            if pad_plays(c) {
                let (motif, bar) = choose|motif: Motif, bar: int|
                    0 <= bar < 4 && #[trigger] pad_chords(motif)[bar] == c;
                let k = match motif {
                    Motif::Wander => 0int,
                    Motif::Pursuit => 1,
                    Motif::Lullaby => 2,
                };
                assert(pad_chords(from[k])[bar] == c);
            }
            if out@.contains(c) {
                let (k, bar) = choose|k: int, bar: int|
                    0 <= k < 3 && 0 <= bar < 4 && #[trigger] pad_chords(from[k])[bar] == c;
                assert(pad_chords(from[k])[bar] == c);
            }
        }
    }
    out
}

/// Every pitch of three lines, sorted and deduplicated.
fn pitches_of_lines(a: &Vec<(u8, u8)>, b: &Vec<(u8, u8)>, c: &Vec<(u8, u8)>) -> (out: Vec<u8>)
    ensures
        rising(out@),
        forall|x: u8|
            out@.contains(x) <==> (line_plays(a@, x) || line_plays(b@, x) || line_plays(c@, x)),
{
    let mut out: Vec<u8> = Vec::new();
    let ghost s0 = out@;
    insert_line(&mut out, a);
    let ghost s1 = out@;
    insert_line(&mut out, b);
    let ghost s2 = out@;
    insert_line(&mut out, c);
    proof {
        assert forall|x: u8|
            out@.contains(x) <==> (line_plays(a@, x) || line_plays(b@, x) || line_plays(
                c@,
                x,
            )) by {
            assert(!s0.contains(x));
            assert(s1.contains(x) <==> line_plays(a@, x));
            assert(s2.contains(x) <==> (s1.contains(x) || line_plays(b@, x)));
        }
    }
    out
}

/// Every pitch the bass plays, sorted and deduplicated.
fn bass_pitches() -> (out: Vec<u8>)
    ensures
        rising(out@),
        forall|x: u8| out@.contains(x) <==> played(Instrument::Bass, x),
{
    let wander = Motif::Wander.score();
    let pursuit = Motif::Pursuit.score();
    let lullaby = Motif::Lullaby.score();
    let out = pitches_of_lines(&wander.bass, &pursuit.bass, &lullaby.bass);
    proof {
        assert forall|x: u8| out@.contains(x) <==> played(Instrument::Bass, x) by {
            if played(Instrument::Bass, x) {
                let motif = choose|motif: Motif| #[trigger] line_plays(bass_line(motif), x);
                match motif {
                    Motif::Wander => {},
                    Motif::Pursuit => {},
                    Motif::Lullaby => {},
                }
            }
            if out@.contains(x) {
                if line_plays(bass_line(Motif::Wander), x) {
                } else if line_plays(bass_line(Motif::Pursuit), x) {
                } else {
                    assert(line_plays(bass_line(Motif::Lullaby), x));
                }
            }
        }
    }
    out
}

/// Every pitch the lead plays, sorted and deduplicated.
fn lead_pitches() -> (out: Vec<u8>)
    ensures
        rising(out@),
        forall|x: u8| out@.contains(x) <==> played(Instrument::Lead, x),
{
    let wander = Motif::Wander.score();
    let pursuit = Motif::Pursuit.score();
    let lullaby = Motif::Lullaby.score();
    let out = pitches_of_lines(&wander.lead, &pursuit.lead, &lullaby.lead);
    proof {
        assert forall|x: u8| out@.contains(x) <==> played(Instrument::Lead, x) by {
            if played(Instrument::Lead, x) {
                let motif = choose|motif: Motif| #[trigger] line_plays(lead_line(motif), x);
                match motif {
                    Motif::Wander => {},
                    Motif::Pursuit => {},
                    Motif::Lullaby => {},
                }
            }
            if out@.contains(x) {
                if line_plays(lead_line(Motif::Wander), x) {
                } else if line_plays(lead_line(Motif::Pursuit), x) {
                } else {
                    assert(line_plays(lead_line(Motif::Lullaby), x));
                }
            }
        }
    }
    out
}

/// Every pitch an instrument plays anywhere in the song, sorted and
/// deduplicated. The frontend bakes one buffer per entry.
pub fn pitches(instrument: Instrument) -> (out: Vec<u8>)
    ensures
        rising(out@),
        forall|x: u8| out@.contains(x) <==> played(instrument, x),
{
    let mut out: Vec<u8> = Vec::new();
    match instrument {
        Instrument::Drums => {
            insert_pitch(&mut out, KICK);
            insert_pitch(&mut out, SNARE);
            insert_pitch(&mut out, HAT);
        },
        Instrument::Bass => {
            out = bass_pitches();
        },
        Instrument::Lead => {
            out = lead_pitches();
        },
        Instrument::Pad => {
            let all = chords();
            let mut i: usize = 0;
            while i < all.len()
                invariant
                    i <= all@.len(),
                    rising(out@),
                    forall|c: Chord| all@.contains(c) <==> pad_plays(c),
                    forall|x: u8|
                        out@.contains(x) <==> (exists|k: int|
                            0 <= k < i && (#[trigger] all@[k]).notes@.contains(x)),
                decreases all@.len() - i,
            {
                let notes = all[i].notes;
                insert_pitch(&mut out, notes[0]);
                insert_pitch(&mut out, notes[1]);
                insert_pitch(&mut out, notes[2]);
                proof {
                    assert forall|x: u8|
                        out@.contains(x) <==> (exists|k: int|
                            0 <= k < i + 1 && (#[trigger] all@[k]).notes@.contains(x)) by {
                        if all@[i as int].notes@.contains(x) {
                            let j = choose|j: int| 0 <= j < 3 && all@[i as int].notes@[j] == x;
                            assert(j == 0 || j == 1 || j == 2);
                        }
                        if x == notes[0] || x == notes[1] || x == notes[2] {
                            assert(all@[i as int].notes@[0] == notes[0]);
                            assert(all@[i as int].notes@[1] == notes[1]);
                            assert(all@[i as int].notes@[2] == notes[2]);
                            assert(all@[i as int].notes@.contains(x));
                        }
                    }
                }
                i = i + 1;
            }
            proof {
                assert forall|x: u8| out@.contains(x) <==> played(instrument, x) by {
                    if played(instrument, x) {
                        let c = choose|c: Chord| pad_plays(c) && #[trigger] c.notes@.contains(x);
                        assert(all@.contains(c));
                        let k = choose|k: int| 0 <= k < all@.len() && all@[k] == c;
                        assert(all@[k].notes@.contains(x));
                    }
                    if out@.contains(x) {
                        let k = choose|k: int| 0 <= k < i && (#[trigger] all@[k]).notes@.contains(x);
                        assert(all@.contains(all@[k]));
                    }
                }
            }
        },
    }
    out
}


/// Where `run` leaves things does not depend on what was banked before:
/// the budget passed in already counts it.
proof fn lemma_run_ignores_bank(p: Playhead, clock: int, budget: int)
    ensures
        run(p.at(p.section, p.step, clock, p.skip), budget) == run(p, budget),
{
    let p2 = p.at(p.section, p.step, clock, p.skip);
    assert(p2.motif() == p.motif());
    assert(stepped(p2) == stepped(p));
}

/// Running never touches the hushes or the opening flag.
proof fn lemma_run_keeps_layers(p: Playhead, budget: int)
    ensures
        run(p, budget).0.started == p.started,
        run(p, budget).0.muted == p.muted,
    decreases budget,
{
    let unit = step_length(p.motif()) as int;
    if budget >= unit {
        lemma_run_keeps_layers(stepped(p).0, budget - unit);
    }
}

/// Running keeps a playhead in the song.
proof fn lemma_run_well_formed(p: Playhead, budget: int)
    requires
        p.well_formed(),
        budget >= 0,
    ensures
        run(p, budget).0.well_formed(),
    decreases budget,
{
    let unit = step_length(p.motif()) as int;
    if budget >= unit {
        lemma_run_well_formed(stepped(p).0, budget - unit);
    }
}

/// Spending `a` then `b` is spending `a + b`, whatever was left banked in
/// between.
proof fn lemma_run_splits(p: Playhead, a: int, b: int)
    requires
        a >= 0,
        b >= 0,
    ensures
        run(run(p, a).0, run(p, a).0.clock + b).0 == run(p, a + b).0,
        run(p, a).1 + run(run(p, a).0, run(p, a).0.clock + b).1 == run(p, a + b).1,
    decreases a,
{
    let unit = step_length(p.motif()) as int;
    if a < unit {
        lemma_run_ignores_bank(p, a, a + b);
    } else {
        let q = stepped(p).0;
        lemma_run_splits(q, a - unit, b);
        assert(a + b - unit == (a - unit) + b);
    }
}

/// Advancing by `a` and then by `b` is advancing by `a + b`: the music does
/// not care how time is sliced into frames, so it replays exactly whatever
/// the frame rate.
pub proof fn lemma_advance_splits(p: Playhead, a: nat, b: nat)
    requires
        p.well_formed(),
    ensures
        advanced(advanced(p, a as int).0, b as int).0 == advanced(p, (a + b) as int).0,
        advanced(p, a as int).1 + advanced(advanced(p, a as int).0, b as int).1 == advanced(
            p,
            (a + b) as int,
        ).1,
{
    let opened = Playhead {
        section: p.section,
        step: p.step,
        clock: p.clock,
        started: true,
        muted: p.muted,
        skip: p.skip,
    };
    lemma_run_keeps_layers(opened, p.clock + a);
    let q = run(opened, p.clock + a).0;
    assert(q.started);
    let q_opened = Playhead {
        section: q.section,
        step: q.step,
        clock: q.clock,
        started: true,
        muted: q.muted,
        skip: q.skip,
    };
    assert(q_opened == q);
    lemma_run_splits(opened, p.clock + a, b as int);
    assert(p.clock + a + b == p.clock + (a + b));
}

/// Within a phrase, steps go by one per step's worth of clock: from `p`,
/// `k` whole steps and `r` more units later the playhead is `k` steps on with
/// `r` banked, in the same section, with nothing announced, as long as the
/// phrase does not end first, nor, with a jump queued, the bar.
pub proof fn lemma_steps_within_phrase(p: Playhead, k: nat, r: nat)
    requires
        p.well_formed(),
        p.step + k < STEPS_PER_SECTION,
        p.skip ==> p.step % 16 + k < 16,
        r < step_length(p.motif()),
    ensures
        run(p, (k * step_length(p.motif()) + r) as int).0 == p.at(p.section, p.step + k, r as int, p.skip),
    decreases k,
{
    let unit = step_length(p.motif());
    if k > 0 {
        let q = stepped(p).0;
        assert(q == p.at(p.section, p.step + 1, 0, p.skip));
        assert(k * unit + r - unit == (k - 1) * unit + r) by (nonlinear_arith);
        assert(k * unit + r >= unit) by (nonlinear_arith)
            requires
                k > 0,
        ;
        lemma_steps_within_phrase(q, (k - 1) as nat, r);
        let budget = (k * unit + r) as int;
        assert(run(p, budget).0 == run(q, budget - unit).0);
        assert(budget - unit == ((k - 1) * unit + r) as int);
    }
}

/// A section lasts exactly one phrase. From the top of a section with no
/// jump queued, any time short of a phrase stays in it; a whole phrase
/// lands on the top of the next section, with that section announced last.
pub proof fn lemma_section_lasts_one_phrase(p: Playhead, t: nat)
    requires
        p.well_formed(),
        p.step == 0,
        p.clock == 0,
        !p.skip,
    ensures
        t < STEPS_PER_SECTION * step_length(p.motif()) ==> run(p, t as int).0.section == p.section,
        run(p, STEPS_PER_SECTION * step_length(p.motif())).0 == p.at(
            (p.section + 1) % (SONG_LEN as int),
            0,
            0,
            false,
        ),
        run(p, STEPS_PER_SECTION * step_length(p.motif())).1 == run(
            p,
            (STEPS_PER_SECTION - 1) * step_length(p.motif()),
        ).1 + seq![Event::Section { motif: song_section((p.section + 1) % (SONG_LEN as int)).motif }]
            + sounding(p.at((p.section + 1) % (SONG_LEN as int), 0, 0, false)),
{
    let unit = step_length(p.motif()) as int;
    if t < STEPS_PER_SECTION * unit {
        let k = t as int / unit;
        let r = t as int % unit;
        assert(t == k * unit + r && 0 <= r < unit && 0 <= k < 64) by (nonlinear_arith)
            requires
                unit > 0,
                k == t as int / unit,
                r == t as int % unit,
                t < 64 * unit,
                t >= 0,
        ;
        lemma_steps_within_phrase(p, k as nat, r as nat);
    }
    lemma_steps_within_phrase(p, 63, 0);
    assert(63 * unit + 0 + unit == 64 * unit);
    lemma_run_splits(p, 63 * unit, unit);
    let q = run(p, 63 * unit).0;
    assert(q == p.at(p.section, 63, 0, false));
    let next = (p.section + 1) % (SONG_LEN as int);
    assert(stepped(q).0 == p.at(next, 0, 0, false));
    assert(run(q, unit) == (
        run(stepped(q).0, 0).0,
        stepped(q).1 + sounding(stepped(q).0) + run(stepped(q).0, 0).1,
    ));
}

/// A queued jump lands exactly at the top of the next bar, which is the top
/// of the next section; the jump is then spent.
pub proof fn lemma_skip_jumps_at_next_bar(p: Playhead)
    requires
        p.well_formed(),
        p.skip,
    ensures
        run(p, (16 - p.step % 16) * step_length(p.motif())).0 == p.at(
            (p.section + 1) % (SONG_LEN as int),
            0,
            0,
            false,
        ),
{
    let unit = step_length(p.motif()) as int;
    let left = 16 - p.step % 16;
    assert(p.step + (left - 1) < 64);
    lemma_steps_within_phrase(p, (left - 1) as nat, 0);
    assert((left - 1) * unit + 0 + unit == left * unit) by (nonlinear_arith);
    assert((left - 1) * unit >= 0) by (nonlinear_arith)
        requires
            left >= 1,
            unit > 0,
    ;
    lemma_run_splits(p, (left - 1) * unit, unit);
    let q = run(p, (left - 1) * unit).0;
    assert(q == p.at(p.section, p.step + left - 1, 0, true));
    assert((p.step + left - 1 + 1) % 16 == 0);
    let next = (p.section + 1) % (SONG_LEN as int);
    assert(stepped(q).0 == p.at(next, 0, 0, false));
    assert(run(q, q.clock + unit).0 == run(stepped(q).0, 0).0);
}

/// Clock units in one pass of the whole song form.
pub open spec fn song_length() -> int {
    64int * (37800 + 37800 + 31500 + 31500 + 49500 + 37800)
}

/// Move from the top of section `i` to the top of the next.
proof fn lemma_next_section_top(p: Playhead)
    requires
        p.well_formed(),
        p.step == 0,
        p.clock == 0,
        !p.skip,
    ensures
        run(p, 64int * step_length(p.motif())).0 == p.at((p.section + 1) % 6, 0, 0, false),
        run(p, 64int * step_length(p.motif())).0.clock == 0,
{
    lemma_section_lasts_one_phrase(p, 0);
}

/// The song loops: from the very top, one pass of the whole form comes back
/// to the top of the first section.
pub proof fn lemma_song_loops(p: Playhead)
    requires
        p.well_formed(),
        p.section == 0,
        p.step == 0,
        p.clock == 0,
        !p.skip,
    ensures
        run(p, song_length()).0 == p,
{
    let p0 = p;
    lemma_next_section_top(p0);
    let p1 = run(p0, 64int * 37800).0;
    lemma_next_section_top(p1);
    lemma_run_splits(p0, 64int * 37800, 64int * 37800);
    let p2 = run(p0, 64int * 37800 * 2).0;
    assert(p2 == p.at(2, 0, 0, false));
    lemma_next_section_top(p2);
    lemma_run_splits(p0, 64int * 37800 * 2, 64int * 31500);
    let p3 = run(p0, 64int * (37800 * 2 + 31500)).0;
    assert(p3 == p.at(3, 0, 0, false));
    lemma_next_section_top(p3);
    lemma_run_splits(p0, 64int * (37800 * 2 + 31500), 64int * 31500);
    let p4 = run(p0, 64int * (37800 * 2 + 31500 * 2)).0;
    assert(p4 == p.at(4, 0, 0, false));
    lemma_next_section_top(p4);
    lemma_run_splits(p0, 64int * (37800 * 2 + 31500 * 2), 64int * 49500);
    let p5 = run(p0, 64int * (37800 * 2 + 31500 * 2 + 49500)).0;
    assert(p5 == p.at(5, 0, 0, false));
    lemma_next_section_top(p5);
    lemma_run_splits(p0, 64int * (37800 * 2 + 31500 * 2 + 49500), 64int * 37800);
    assert(p.at(0, 0, 0, false) == p);
}


/// Whether an event is a sound made by `instrument`: one of its notes, or
/// for the pad, a chord.
pub open spec fn voiced_by(event: Event, instrument: Instrument) -> bool {
    match event {
        Event::Note { instrument: played_by, .. } => played_by == instrument,
        Event::Chord(_) => instrument == Instrument::Pad,
        _ => false,
    }
}

/// Every note a line sounds on a step is one of the line's pitches, at the
/// step's accent.
proof fn lemma_line_events(instrument: Instrument, line: Seq<(u8, u8)>, step: int, i: int)
    requires
        0 <= step,
        0 <= i < line_events(instrument, line, step).len(),
    ensures
        line_events(instrument, line, step)[i] matches Event::Note {
            instrument: by,
            pitch,
            velocity,
            step: at,
        } && by == instrument && line_plays(line, pitch) && velocity == accent(step % 16) && at
            == step % 16,
    decreases line.len(),
{
    let rest = line_events(instrument, line.drop_last(), step);
    if i < rest.len() {
        lemma_line_events(instrument, line.drop_last(), step, i);
        if let Event::Note { pitch, .. } = rest[i] {
            let k = choose|k: int|
                0 <= k < line.drop_last().len() && #[trigger] line.drop_last()[k].1 == pitch;
            assert(line[k].1 == pitch);
        }
    } else {
        assert(line[line.len() - 1].1 == line.last().1);
    }
}

/// How loud each voice plays against the step's accent, in thousandths:
/// the kick in full, the snare at nine tenths, the hat at half; bass and
/// lead notes play the accent itself.
pub open spec fn drum_gain(instrument: Instrument, pitch: u8) -> int {
    if instrument != Instrument::Drums {
        1000
    } else if pitch == KICK {
        1000
    } else if pitch == SNARE {
        900
    } else {
        500
    }
}

/// What sounds is honest: only active layers sound, every note lands on the
/// current step of the bar at a velocity in range that is full only on the
/// beat, every pitch and chord is one the bake lists hold, and the pad's
/// chord comes only at the top of a bar, the one written for that bar.
pub proof fn lemma_sounding_is_honest(p: Playhead, i: int)
    requires
        p.well_formed(),
        0 <= i < sounding(p).len(),
    ensures
        sounding(p)[i] is Note || sounding(p)[i] is Chord,
        sounding(p)[i] matches Event::Note { instrument, pitch, velocity, step } ==> {
            &&& p.is_active(instrument)
            &&& instrument != Instrument::Pad
            &&& played(instrument, pitch)
            &&& velocity <= FULL_VELOCITY
            &&& step == p.step % 16
            &&& step % 4 != 0 ==> velocity < FULL_VELOCITY
            &&& velocity == accent(p.step % 16) * drum_gain(instrument, pitch) / 1000
        },
        sounding(p)[i] matches Event::Chord(c) ==> {
            &&& p.is_active(Instrument::Pad)
            &&& p.step % 16 == 0
            &&& pad_plays(c)
            &&& c == pad_chords(p.motif())[p.step / 16]
        },
{
    reveal(sounding);
    let motif = p.motif();
    let bar_step = p.step % 16;
    let kick = drum_hit(kick_steps(motif), bar_step, KICK, 1000);
    let snare = drum_hit(snare_steps(motif), bar_step, SNARE, 900);
    let hat = drum_hit(hat_steps(motif), bar_step, HAT, 500);
    let drums = if p.is_active(Instrument::Drums) {
        kick + snare + hat
    } else {
        seq![]
    };
    let bass = if p.is_active(Instrument::Bass) {
        line_events(Instrument::Bass, bass_line(motif), p.step)
    } else {
        seq![]
    };
    let lead = if p.is_active(Instrument::Lead) {
        line_events(Instrument::Lead, lead_line(motif), p.step)
    } else {
        seq![]
    };
    let pad = if p.is_active(Instrument::Pad) && bar_step == 0 {
        seq![Event::Chord(pad_chords(motif)[p.step / 16])]
    } else {
        seq![]
    };
    assert(sounding(p) == drums + bass + lead + pad);
    if i < drums.len() {
        assert(accent(bar_step) <= 1000);
        assert(bar_step % 4 != 0 ==> accent(bar_step) <= 800);
        if i < kick.len() {
            assert(sounding(p)[i] == kick[i]);
        } else if i < kick.len() + snare.len() {
            assert(sounding(p)[i] == snare[i - kick.len()]);
        } else {
            assert(sounding(p)[i] == hat[i - kick.len() - snare.len()]);
        }
    } else if i < drums.len() + bass.len() {
        lemma_line_events(Instrument::Bass, bass_line(motif), p.step, i - drums.len());
        assert(sounding(p)[i] == bass[i - drums.len()]);
        if let Event::Note { pitch, .. } = sounding(p)[i] {
            assert(line_plays(bass_line(motif), pitch));
        }
    } else if i < drums.len() + bass.len() + lead.len() {
        lemma_line_events(Instrument::Lead, lead_line(motif), p.step, i - drums.len() - bass.len());
        assert(sounding(p)[i] == lead[i - drums.len() - bass.len()]);
        if let Event::Note { pitch, .. } = sounding(p)[i] {
            assert(line_plays(lead_line(motif), pitch));
        }
    } else {
        assert(sounding(p)[i] == pad[i - drums.len() - bass.len() - lead.len()]);
        assert(0 <= p.step / 16 < 4);
        assert(pad_plays(pad_chords(motif)[p.step / 16]));
    }
}

/// Every event of a run is an announcement or a sound of a playhead with
/// the same hushes, in the song.
proof fn lemma_run_hushed_is_silent(p: Playhead, budget: int, instrument: Instrument)
    requires
        p.well_formed(),
        p.muted[instrument.slot()],
        budget >= 0,
    ensures
        forall|i: int|
            0 <= i < run(p, budget).1.len() ==> !voiced_by(#[trigger] run(p, budget).1[i], instrument),
    decreases budget,
{
    let unit = step_length(p.motif()) as int;
    if budget >= unit {
        let (q, announced) = stepped(p);
        lemma_run_hushed_is_silent(q, budget - unit, instrument);
        let rest = run(q, budget - unit).1;
        let events = announced + sounding(q) + rest;
        assert forall|i: int| 0 <= i < events.len() implies !voiced_by(
            #[trigger] events[i],
            instrument,
        ) by {
            if announced.len() <= i < announced.len() + sounding(q).len() {
                lemma_sounding_is_honest(q, i - announced.len());
                assert(events[i] == sounding(q)[i - announced.len()]);
            } else if i >= announced.len() + sounding(q).len() {
                assert(events[i] == rest[i - announced.len() - sounding(q).len()]);
            }
        }
    }
}

/// Hushing is a kill switch: while an instrument is hushed, no amount of
/// advancing sounds any of it.
pub proof fn lemma_hushed_is_silent(p: Playhead, dt: nat, instrument: Instrument)
    requires
        p.well_formed(),
        p.muted[instrument.slot()],
    ensures
        forall|i: int|
            0 <= i < advanced(p, dt as int).1.len() ==> !voiced_by(
                #[trigger] advanced(p, dt as int).1[i],
                instrument,
            ),
{
    let opened = Playhead {
        section: p.section,
        step: p.step,
        clock: p.clock,
        started: true,
        muted: p.muted,
        skip: p.skip,
    };
    lemma_run_hushed_is_silent(opened, p.clock + dt, instrument);
    let opening = if p.started {
        seq![]
    } else {
        seq![Event::Section { motif: p.motif() }] + sounding(p)
    };
    let rest = run(opened, p.clock + dt).1;
    assert forall|i: int| 0 <= i < advanced(p, dt as int).1.len() implies !voiced_by(
        #[trigger] advanced(p, dt as int).1[i],
        instrument,
    ) by {
        assert(advanced(p, dt as int).1 == opening + rest);
        if i < opening.len() {
            if !p.started && i >= 1 {
                lemma_sounding_is_honest(p, i - 1);
                assert(opening[i] == sounding(p)[i - 1]);
            }
        } else {
            assert(advanced(p, dt as int).1[i] == rest[i - opening.len()]);
        }
    }
}


/// An event the rest of the game can take as it stands: a note of a drum,
/// bass or lead pitch the song plays, at a velocity in range, or a chord
/// the pad plays. Announcements and layer changes are always honest.
pub open spec fn honest(event: Event) -> bool {
    match event {
        Event::Note { instrument, pitch, velocity, .. } => instrument != Instrument::Pad && played(
            instrument,
            pitch,
        ) && velocity <= FULL_VELOCITY,
        Event::Chord(chord) => pad_plays(chord),
        _ => true,
    }
}

/// Everything a run sounds or announces is honest.
proof fn lemma_run_is_honest(p: Playhead, budget: int)
    requires
        p.well_formed(),
        budget >= 0,
    ensures
        forall|i: int| 0 <= i < run(p, budget).1.len() ==> honest(#[trigger] run(p, budget).1[i]),
    decreases budget,
{
    let unit = step_length(p.motif()) as int;
    if budget >= unit {
        let (q, announced) = stepped(p);
        lemma_run_is_honest(q, budget - unit);
        let rest = run(q, budget - unit).1;
        let events = announced + sounding(q) + rest;
        assert forall|i: int| 0 <= i < events.len() implies honest(#[trigger] events[i]) by {
            if announced.len() <= i < announced.len() + sounding(q).len() {
                lemma_sounding_is_honest(q, i - announced.len());
                assert(events[i] == sounding(q)[i - announced.len()]);
            } else if i >= announced.len() + sounding(q).len() {
                assert(events[i] == rest[i - announced.len() - sounding(q).len()]);
            }
        }
    }
}

/// Whatever advancing hands back is honest: every note is a drum, bass or
/// lead pitch the song plays, at a velocity in range, and every chord is
/// one the pad plays, however long the advance.
pub proof fn lemma_advance_is_honest(p: Playhead, dt: nat)
    requires
        p.well_formed(),
    ensures
        forall|i: int|
            0 <= i < advanced(p, dt as int).1.len() ==> honest(#[trigger] advanced(p, dt as int).1[i]),
{
    let opened = Playhead {
        section: p.section,
        step: p.step,
        clock: p.clock,
        started: true,
        muted: p.muted,
        skip: p.skip,
    };
    lemma_run_is_honest(opened, p.clock + dt);
    let opening = if p.started {
        seq![]
    } else {
        seq![Event::Section { motif: p.motif() }] + sounding(p)
    };
    let rest = run(opened, p.clock + dt).1;
    assert forall|i: int| 0 <= i < advanced(p, dt as int).1.len() implies honest(
        #[trigger] advanced(p, dt as int).1[i],
    ) by {
        assert(advanced(p, dt as int).1 == opening + rest);
        if i < opening.len() {
            if !p.started && i >= 1 {
                lemma_sounding_is_honest(p, i - 1);
                assert(opening[i] == sounding(p)[i - 1]);
            }
        } else {
            assert(advanced(p, dt as int).1[i] == rest[i - opening.len()]);
        }
    }
}

/// Whether a new section is announced in `events` before index `i`.
pub open spec fn section_before(events: Seq<Event>, i: int) -> bool {
    exists|j: int| 0 <= j < i && #[trigger] events[j] is Section
}

/// In a run from a playhead on which `instrument` is silent, nothing of it
/// sounds until a new section is announced.
proof fn lemma_run_quiet_until_section(p: Playhead, budget: int, instrument: Instrument)
    requires
        p.well_formed(),
        !p.is_active(instrument),
        budget >= 0,
    ensures
        forall|i: int|
            0 <= i < run(p, budget).1.len() ==> !voiced_by(#[trigger] run(p, budget).1[i], instrument)
                || section_before(run(p, budget).1, i),
    decreases budget,
{
    let unit = step_length(p.motif()) as int;
    if budget >= unit {
        let (q, announced) = stepped(p);
        let rest = run(q, budget - unit).1;
        let events = announced + sounding(q) + rest;
        assert(run(p, budget).1 == events);
        if announced.len() > 0 {
            assert(events[0] is Section);
            assert forall|i: int| 0 <= i < events.len() implies !voiced_by(
                #[trigger] events[i],
                instrument,
            ) || section_before(events, i) by {
                if i > 0 {
                    assert(section_before(events, i));
                }
            }
        } else {
            assert(q.section == p.section && q.muted == p.muted);
            assert(!q.is_active(instrument));
            lemma_run_quiet_until_section(q, budget - unit, instrument);
            assert forall|i: int| 0 <= i < events.len() implies !voiced_by(
                #[trigger] events[i],
                instrument,
            ) || section_before(events, i) by {
                let n = sounding(q).len();
                if i < n {
                    lemma_sounding_is_honest(q, i);
                    assert(events[i] == sounding(q)[i]);
                } else {
                    let k = i - n;
                    assert(events[i] == rest[k]);
                    if voiced_by(rest[k], instrument) {
                        assert(section_before(rest, k));
                        let j = choose|j: int| 0 <= j < k && #[trigger] rest[j] is Section;
                        assert(events[j + n] == rest[j]);
                        assert(section_before(events, i));
                    }
                }
            }
        }
    }
}

/// An instrument the current section does not arrange, or that is hushed,
/// stays silent until the next section is announced: unhushing cannot
/// bring in what the arrangement leaves out, and a section that leaves an
/// instrument out keeps it out to its end.
pub proof fn lemma_silent_until_next_section(p: Playhead, dt: nat, instrument: Instrument)
    requires
        p.well_formed(),
        !p.is_active(instrument),
    ensures
        forall|i: int|
            0 <= i < advanced(p, dt as int).1.len() && !section_before(advanced(p, dt as int).1, i)
                ==> !voiced_by(#[trigger] advanced(p, dt as int).1[i], instrument),
{
    let opened = Playhead {
        section: p.section,
        step: p.step,
        clock: p.clock,
        started: true,
        muted: p.muted,
        skip: p.skip,
    };
    let events = advanced(p, dt as int).1;
    let rest = run(opened, p.clock + dt).1;
    if !p.started {
        assert(events[0] is Section);
        assert forall|i: int|
            0 <= i < events.len() && !section_before(events, i) implies !voiced_by(
            #[trigger] events[i],
            instrument,
        ) by {
            if i > 0 {
                assert(section_before(events, i));
            }
        }
    } else {
        assert(events == rest);
        lemma_run_quiet_until_section(opened, p.clock + dt, instrument);
        assert forall|i: int|
            0 <= i < events.len() && !section_before(events, i) implies !voiced_by(
            #[trigger] events[i],
            instrument,
        ) by {
            assert(events[i] == rest[i]);
        }
    }
}

/// Whether `events` hold a note of `instrument` at `pitch`.
pub open spec fn sounds_note(events: Seq<Event>, instrument: Instrument, pitch: u8) -> bool {
    exists|i: int|
        0 <= i < events.len() && (#[trigger] events[i] matches Event::Note {
            instrument: by,
            pitch: at,
            ..
        } && by == instrument && at == pitch)
}

/// A note sounds in two runs of events together exactly when it sounds in
/// one of them.
proof fn lemma_sounds_note_concat(a: Seq<Event>, b: Seq<Event>, instrument: Instrument, pitch: u8)
    ensures
        sounds_note(a + b, instrument, pitch) <==> sounds_note(a, instrument, pitch) || sounds_note(
            b,
            instrument,
            pitch,
        ),
{
    let ab = a + b;
    if sounds_note(ab, instrument, pitch) {
        let i = choose|i: int|
            0 <= i < ab.len() && (#[trigger] ab[i] matches Event::Note { instrument: by, pitch: at, .. }
                && by == instrument && at == pitch);
        if i < a.len() {
            assert(ab[i] == a[i]);
        } else {
            assert(ab[i] == b[i - a.len()]);
        }
    }
    if sounds_note(a, instrument, pitch) {
        let i = choose|i: int|
            0 <= i < a.len() && (#[trigger] a[i] matches Event::Note { instrument: by, pitch: at, .. }
                && by == instrument && at == pitch);
        assert(ab[i] == a[i]);
    }
    if sounds_note(b, instrument, pitch) {
        let i = choose|i: int|
            0 <= i < b.len() && (#[trigger] b[i] matches Event::Note { instrument: by, pitch: at, .. }
                && by == instrument && at == pitch);
        assert(ab[i + a.len()] == b[i]);
    }
}

/// The notes a line sounds on a phrase step are exactly its entries keyed
/// by that step, each of the line's own instrument.
proof fn lemma_line_keyed_by_phrase_step(
    instrument: Instrument,
    line: Seq<(u8, u8)>,
    step: int,
    other: Instrument,
    pitch: u8,
)
    requires
        0 <= step,
    ensures
        sounds_note(line_events(instrument, line, step), other, pitch) <==> other == instrument
            && exists|k: int| 0 <= k < line.len() && #[trigger] line[k].0 as int == step && line[k].1 == pitch,
    decreases line.len(),
{
    let events = line_events(instrument, line, step);
    if line.len() > 0 {
        let front = line.drop_last();
        lemma_line_keyed_by_phrase_step(instrument, front, step, other, pitch);
        let rest = line_events(instrument, front, step);
        if line.last().0 as int == step {
            let note = Event::Note {
                instrument,
                pitch: line.last().1,
                velocity: accent(step % 16) as u32,
                step: (step % 16) as u32,
            };
            assert(events == rest + seq![note]);
            lemma_sounds_note_concat(rest, seq![note], other, pitch);
            if sounds_note(seq![note], other, pitch) {
                assert(line[line.len() - 1] == line.last());
            }
            if other == instrument && line.last().1 == pitch {
                assert(seq![note][0] == note);
            }
        }
        if exists|k: int| 0 <= k < line.len() && #[trigger] line[k].0 as int == step && line[k].1 == pitch {
            let k = choose|k: int| 0 <= k < line.len() && #[trigger] line[k].0 as int == step && line[k].1 == pitch;
            if k < line.len() - 1 {
                assert(front[k] == line[k]);
            }
        }
        if exists|k: int| 0 <= k < front.len() && #[trigger] front[k].0 as int == step && front[k].1 == pitch {
            let k = choose|k: int| 0 <= k < front.len() && #[trigger] front[k].0 as int == step && front[k].1 == pitch;
            assert(line[k] == front[k]);
        }
    }
}

/// The notes a drum pattern sounds: its own drum, never another.
proof fn lemma_drum_hit_sounds(steps: Seq<u8>, bar_step: int, drum: u8, gain: int, other: Instrument, pitch: u8)
    ensures
        sounds_note(drum_hit(steps, bar_step, drum, gain), other, pitch) <==> other == Instrument::Drums
            && pitch == drum && steps.contains(bar_step as u8),
{
    let events = drum_hit(steps, bar_step, drum, gain);
    if steps.contains(bar_step as u8) {
        assert(events.len() == 1);
        if other == Instrument::Drums && pitch == drum {
            assert(events[0] matches Event::Note { instrument: by, pitch: at, .. } && by == other && at == pitch);
        }
    }
}

/// The drums play their own patterns: with the drums sounding, the kick
/// sounds on a step of the bar exactly when the motif's kick pattern holds
/// that step, the snare exactly on the snare pattern's steps, and the hat
/// exactly on the hat pattern's steps. No drum ever sounds another's
/// pattern, and hushed or unarranged drums sound none.
pub proof fn lemma_drums_play_their_patterns(p: Playhead)
    requires
        p.well_formed(),
    ensures
        sounds_note(sounding(p), Instrument::Drums, KICK) <==> p.is_active(Instrument::Drums)
            && kick_steps(p.motif()).contains((p.step % 16) as u8),
        sounds_note(sounding(p), Instrument::Drums, SNARE) <==> p.is_active(Instrument::Drums)
            && snare_steps(p.motif()).contains((p.step % 16) as u8),
        sounds_note(sounding(p), Instrument::Drums, HAT) <==> p.is_active(Instrument::Drums)
            && hat_steps(p.motif()).contains((p.step % 16) as u8),
{
    lemma_part_sounds(p, Instrument::Drums, KICK);
    lemma_part_sounds(p, Instrument::Drums, SNARE);
    lemma_part_sounds(p, Instrument::Drums, HAT);
}

/// The bass and the lead walk their lines over the whole phrase: with the
/// bass sounding on phrase step `s`, a bass note sounds at a pitch exactly
/// when the motif's bass line holds that pitch at step `s` of the phrase,
/// not merely at the same step of some other bar; likewise the lead with
/// its tune. A hushed or unarranged line sounds nothing.
pub proof fn lemma_lines_walk_the_phrase(p: Playhead, pitch: u8)
    requires
        p.well_formed(),
    ensures
        sounds_note(sounding(p), Instrument::Bass, pitch) <==> p.is_active(Instrument::Bass)
            && exists|k: int|
            0 <= k < bass_line(p.motif()).len() && #[trigger] bass_line(p.motif())[k].0 as int == p.step
                && bass_line(p.motif())[k].1 == pitch,
        sounds_note(sounding(p), Instrument::Lead, pitch) <==> p.is_active(Instrument::Lead)
            && exists|k: int|
            0 <= k < lead_line(p.motif()).len() && #[trigger] lead_line(p.motif())[k].0 as int == p.step
                && lead_line(p.motif())[k].1 == pitch,
{
    lemma_part_sounds(p, Instrument::Bass, pitch);
    lemma_part_sounds(p, Instrument::Lead, pitch);
}

/// What sounds of one instrument at a pitch, part by part of the step.
proof fn lemma_part_sounds(p: Playhead, instrument: Instrument, pitch: u8)
    requires
        p.well_formed(),
    ensures
        instrument == Instrument::Drums ==> (sounds_note(sounding(p), instrument, pitch) <==> p.is_active(
            instrument,
        ) && (pitch == KICK && kick_steps(p.motif()).contains((p.step % 16) as u8) || pitch == SNARE
            && snare_steps(p.motif()).contains((p.step % 16) as u8) || pitch == HAT && hat_steps(
            p.motif(),
        ).contains((p.step % 16) as u8))),
        instrument == Instrument::Bass ==> (sounds_note(sounding(p), instrument, pitch) <==> p.is_active(
            instrument,
        ) && exists|k: int|
            0 <= k < bass_line(p.motif()).len() && #[trigger] bass_line(p.motif())[k].0 as int == p.step
                && bass_line(p.motif())[k].1 == pitch),
        instrument == Instrument::Lead ==> (sounds_note(sounding(p), instrument, pitch) <==> p.is_active(
            instrument,
        ) && exists|k: int|
            0 <= k < lead_line(p.motif()).len() && #[trigger] lead_line(p.motif())[k].0 as int == p.step
                && lead_line(p.motif())[k].1 == pitch),
{
    reveal(sounding);
    let motif = p.motif();
    let bar_step = p.step % 16;
    let kick = drum_hit(kick_steps(motif), bar_step, KICK, 1000);
    let snare = drum_hit(snare_steps(motif), bar_step, SNARE, 900);
    let hat = drum_hit(hat_steps(motif), bar_step, HAT, 500);
    let drums = if p.is_active(Instrument::Drums) {
        kick + snare + hat
    } else {
        seq![]
    };
    let bass_all = line_events(Instrument::Bass, bass_line(motif), p.step);
    let lead_all = line_events(Instrument::Lead, lead_line(motif), p.step);
    let bass = if p.is_active(Instrument::Bass) {
        bass_all
    } else {
        seq![]
    };
    let lead = if p.is_active(Instrument::Lead) {
        lead_all
    } else {
        seq![]
    };
    let pad = if p.is_active(Instrument::Pad) && bar_step == 0 {
        seq![Event::Chord(pad_chords(motif)[p.step / 16])]
    } else {
        seq![]
    };
    assert(sounding(p) == drums + bass + lead + pad);
    lemma_sounds_note_concat(drums + bass + lead, pad, instrument, pitch);
    lemma_sounds_note_concat(drums + bass, lead, instrument, pitch);
    lemma_sounds_note_concat(drums, bass, instrument, pitch);
    lemma_sounds_note_concat(kick + snare, hat, instrument, pitch);
    lemma_sounds_note_concat(kick, snare, instrument, pitch);
    lemma_drum_hit_sounds(kick_steps(motif), bar_step, KICK, 1000, instrument, pitch);
    lemma_drum_hit_sounds(snare_steps(motif), bar_step, SNARE, 900, instrument, pitch);
    lemma_drum_hit_sounds(hat_steps(motif), bar_step, HAT, 500, instrument, pitch);
    lemma_line_keyed_by_phrase_step(Instrument::Bass, bass_line(motif), p.step, instrument, pitch);
    lemma_line_keyed_by_phrase_step(Instrument::Lead, lead_line(motif), p.step, instrument, pitch);
    assert(!sounds_note(pad, instrument, pitch));
    assert(!sounds_note(Seq::<Event>::empty(), instrument, pitch));
}

} // verus!
