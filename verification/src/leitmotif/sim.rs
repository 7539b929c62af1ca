//! The game's own rules: where the journey stands, and what the music does
//! to it.
//!
//! A journey home, ruled by the music. The [`Sequencer`] walks the score and
//! hands back [`Event`]s; the world turns them into behaviour and, unchanged,
//! into [`Cue`]s for the frontend to play. What you hear is what is
//! happening. This module holds the part of that which is decided rather
//! than measured: the phase of the game, the pause, the hearts, the chord
//! the pad last played, the fermata's on and off, the cues of one frame, and
//! the grid arithmetic that says which lane a wall is in. The world's
//! geometry and motion are the frontend's, and come back here as the
//! decisions they force: a hit, a telegraph, reaching home.

use vstd::prelude::*;

use crate::leitmotif::song::{
    HAT, KICK, SNARE, advanced, honest, lemma_advance_is_honest, pad_chords, pad_plays, played, reports, song_section, Chord, Event, Instrument, Motif,
    Playhead, Position, Sequencer, song_top, FULL_VELOCITY, SONG_LEN, TICK,
};

verus! {

/// Hearts the player starts with, and the most it can hold.
pub const MAX_HEARTS: u32 = 3;

/// How many lanes walls cycle through. Bass pitch classes map onto lanes.
pub const WALL_LANES: usize = 4;

/// How many wall columns apart the spinners stand.
pub const SPINNER_EVERY: i32 = 4;

/// Where the game is.
#[derive(Clone, Copy, Debug, PartialEq, Eq, Hash, Structural)]
pub enum Phase {
    /// Waiting for a first press. The music has not started.
    Title,
    Playing,
    /// Out of hearts. The music has stopped.
    Over,
    /// Home. The music has resolved.
    Won,
}

/// The presses the sim is allowed to know about for one frame. The sim
/// never reads global input state, which is what makes replay and testing
/// possible. Movement is the world's, and travels beside these.
#[derive(Clone, Copy, Debug, Default, PartialEq, Eq)]
pub struct Controls {
    /// Any press: leaves the title screen.
    pub start: bool,
    /// Held to hold the music: the fermata.
    pub hold: bool,
    /// Edge-triggered: cue the next section.
    pub next_section: bool,
    /// Edge-triggered: flips the pause flag.
    pub toggle_pause: bool,
    /// Start over with a new seed.
    pub restart: Option<u64>,
}

/// Something that happened and is worth hearing. Music events pass through
/// verbatim; the rest are the game's own.
#[derive(Clone, Copy, Debug, PartialEq, Eq)]
pub enum Cue {
    /// A note sounded, `velocity` in thousandths. Drums use the song's
    /// drum notes as their pitch.
    Note { instrument: Instrument, pitch: u8, velocity: u32 },
    /// The pad changed chord.
    Chord(Chord),
    /// A new section of the song began.
    Section(Motif),
    /// The fermata began or ended.
    Fermata { held: bool },
    /// Stompers began telegraphing a move.
    Windup,
    /// A stomper's shockwave went off.
    Shock,
    /// Something caught the player.
    Hit { fatal: bool },
    /// A bell in the current key: a heart back, reaching home, starting
    /// over.
    Bell { pitch: u8 },
    /// Pause was toggled. `paused` is the state just entered.
    Pause { paused: bool },
    /// The game started over.
    Restart,
}

/// The root of a motif's home chord.
pub open spec fn home_note(motif: Motif) -> u8 {
    pad_chords(motif)[0].notes@[0]
}

/// The home notes are middle-register: a bell two octaves up still fits a
/// MIDI note.
pub proof fn lemma_home_notes(motif: Motif)
    ensures
        home_note(motif) == (match motif {
            Motif::Wander => 60u8,
            Motif::Pursuit => 57u8,
            Motif::Lullaby => 53u8,
        }),
        home_note(motif) + 24 < 128,
{
    reveal(pad_chords);
}

/// Whether a bell at `pitch` is one the game rings: a motif's home note,
/// or one or two octaves above it.
pub open spec fn is_bell(pitch: u8) -> bool {
    exists|motif: Motif|
        pitch == home_note(motif) || pitch == home_note(motif) + 12 || pitch == home_note(motif)
            + 24
}

/// The cues the game can make: music as the song writes it, and bells in
/// key.
pub open spec fn possible_cue(cue: Cue) -> bool {
    match cue {
        Cue::Note { instrument, pitch, velocity } => instrument != Instrument::Pad && played(
            instrument,
            pitch,
        ) && velocity <= FULL_VELOCITY,
        Cue::Chord(chord) => pad_plays(chord),
        Cue::Bell { pitch } => is_bell(pitch),
        _ => true,
    }
}

/// The journey as the model sees it.
#[verifier::ext_equal]
pub struct JourneyState {
    pub seed: u64,
    pub music: Playhead,
    pub phase: Phase,
    pub paused: bool,
    pub hearts: nat,
    pub chord: Option<Chord>,
    pub holding: bool,
    pub cues: Seq<Cue>,
}

impl JourneyState {
    /// Hearts never run over; a game that is over has none left, and none
    /// left means the game is over, unless home was reached on that very
    /// tick; every cue is one the game can make; the music is in the song.
    pub open spec fn consistent(self) -> bool {
        &&& self.hearts <= MAX_HEARTS
        &&& (self.phase == Phase::Over ==> self.hearts == 0)
        &&& (self.hearts == 0 ==> self.phase == Phase::Over || self.phase == Phase::Won)
        &&& forall|i: int| 0 <= i < self.cues.len() ==> possible_cue(#[trigger] self.cues[i])
        &&& self.music.well_formed()
    }
}

/// Where the game is, apart from the world's geometry: the music, the
/// phase, the hearts, and the cues of the current frame.
#[derive(Debug)]
pub struct Journey {
    seed: u64,
    sequencer: Sequencer,
    phase: Phase,
    paused: bool,
    hearts: u32,
    /// The chord the pad last played, for the renderer's palette.
    chord: Option<Chord>,
    /// Whether the music is being held right now.
    holding: bool,
    cues: Vec<Cue>,
}

impl View for Journey {
    type V = JourneyState;

    closed spec fn view(&self) -> JourneyState {
        JourneyState {
            seed: self.seed,
            music: self.sequencer@,
            phase: self.phase,
            paused: self.paused,
            hearts: self.hearts as nat,
            chord: self.chord,
            holding: self.holding,
            cues: self.cues@,
        }
    }
}

/// What forwarding one music event does to the hearts and the chord, and
/// which cues it makes. A lullaby beginning gives a lost heart back, with a
/// bell an octave above its home note.
pub open spec fn forward_one(hearts: nat, chord: Option<Chord>, event: Event) -> (
    nat,
    Option<Chord>,
    Seq<Cue>,
) {
    match event {
        Event::Note { instrument, pitch, velocity, .. } => (
            hearts,
            chord,
            seq![Cue::Note { instrument, pitch, velocity }],
        ),
        Event::Chord(played) => (hearts, Some(played), seq![Cue::Chord(played)]),
        Event::Section { motif } => if motif == Motif::Lullaby && hearts < MAX_HEARTS {
            (
                hearts + 1,
                chord,
                seq![Cue::Bell { pitch: (home_note(motif) + 12) as u8 }, Cue::Section(motif)],
            )
        } else {
            (hearts, chord, seq![Cue::Section(motif)])
        },
        Event::Layer { .. } => (hearts, chord, seq![]),
    }
}

/// What beginning a frame does: the last frame's cues go; starting over
/// replaces the journey with a fresh one already playing, announced with a
/// bell on the home note; a press leaves the title screen; only while
/// playing does pause toggle, announced; and only while playing and not
/// paused may a section skip be queued. The flag says whether the world
/// may tick.
pub open spec fn frame_begun(s: JourneyState, controls: Controls) -> (JourneyState, bool) {
    let fresh = controls.restart is Some;
    let phase = if fresh {
        Phase::Playing
    } else if s.phase == Phase::Title && controls.start {
        Phase::Playing
    } else {
        s.phase
    };
    let paused0 = !fresh && s.paused;
    let paused = if phase == Phase::Playing && controls.toggle_pause {
        !paused0
    } else {
        paused0
    };
    let music = if fresh {
        song_top()
    } else {
        s.music
    };
    let opening = if fresh {
        seq![Cue::Restart, Cue::Bell { pitch: home_note(song_section(0).motif) }]
    } else {
        seq![]
    };
    let announced = if phase == Phase::Playing && controls.toggle_pause {
        seq![Cue::Pause { paused }]
    } else {
        seq![]
    };
    let run = phase == Phase::Playing && !paused;
    (
        JourneyState {
            seed: if fresh {
                controls.restart->0
            } else {
                s.seed
            },
            music: if run && controls.next_section {
                Playhead { skip: true, ..music }
            } else {
                music
            },
            phase,
            paused,
            hearts: if fresh {
                MAX_HEARTS as nat
            } else {
                s.hearts
            },
            chord: if fresh {
                None
            } else {
                s.chord
            },
            holding: !fresh && s.holding,
            cues: opening + announced,
        },
        run,
    )
}

/// Waiting is still and silent: on the title screen without a press, or
/// once the game is over or won, a frame that does not start over leaves
/// the journey as it was, makes no sound, and lets nothing tick.
pub proof fn lemma_waiting_is_still(s: JourneyState, controls: Controls)
    requires
        controls.restart is None,
        s.phase == Phase::Title && !controls.start || s.phase == Phase::Over || s.phase
            == Phase::Won,
    ensures
        frame_begun(s, controls) == (JourneyState { cues: Seq::<Cue>::empty(), ..s }, false),
{
    assert(frame_begun(s, controls).0.cues =~= Seq::<Cue>::empty());
}

/// Cues do not outlive their frame: what a frame begins with is the same
/// whatever cues the last frame left, and is at most the restart, its bell
/// and a pause.
pub proof fn lemma_cues_do_not_outlive_their_frame(
    s: JourneyState,
    left: Seq<Cue>,
    controls: Controls,
)
    ensures
        frame_begun(s, controls).0.cues == frame_begun(JourneyState { cues: left, ..s }, controls).0.cues,
        frame_begun(s, controls).0.cues.len() <= 3,
        forall|i: int|
            0 <= i < frame_begun(s, controls).0.cues.len() ==> {
                let cue = #[trigger] frame_begun(s, controls).0.cues[i];
                cue is Restart || cue is Bell || cue is Pause
            },
{
}

/// Starting over forgets the old journey entirely and goes back to the top
/// of the song: whatever two journeys were doing, the same restarting frame
/// leaves them identical, playing from the first step of the first section
/// with nothing banked, nothing yet sounded and nothing hushed (a section
/// skip pressed on that very frame is the only thing queued), with every
/// heart, no chord, no hold, the new seed, and the restart and its bell on
/// the home note as the frame's first cues.
pub proof fn lemma_restart_starts_from_the_top(s: JourneyState, t: JourneyState, controls: Controls)
    requires
        controls.restart is Some,
    ensures
        frame_begun(s, controls) == frame_begun(t, controls),
        frame_begun(s, controls).0.music == (Playhead {
            skip: frame_begun(s, controls).1 && controls.next_section,
            ..song_top()
        }),
        frame_begun(s, controls).0.music.section == 0,
        frame_begun(s, controls).0.music.step == 0,
        frame_begun(s, controls).0.music.clock == 0,
        !frame_begun(s, controls).0.music.started,
        forall|i: int| 0 <= i < 4 ==> !frame_begun(s, controls).0.music.muted[i],
        frame_begun(s, controls).0.phase == Phase::Playing,
        frame_begun(s, controls).0.hearts == MAX_HEARTS,
        frame_begun(s, controls).0.chord is None,
        !frame_begun(s, controls).0.holding,
        frame_begun(s, controls).0.seed == controls.restart->0,
        frame_begun(s, controls).0.cues[0] == Cue::Restart,
        frame_begun(s, controls).0.cues[1] == (Cue::Bell { pitch: home_note(song_section(0).motif) }),
{
    assert(frame_begun(s, controls).0 =~= frame_begun(t, controls).0);
}

/// The cue a music event passes on as, if it makes one: the event itself.
pub open spec fn as_cue(event: Event) -> Option<Cue> {
    match event {
        Event::Note { instrument, pitch, velocity, .. } => Some(
            Cue::Note { instrument, pitch, velocity },
        ),
        Event::Chord(chord) => Some(Cue::Chord(chord)),
        Event::Section { motif } => Some(Cue::Section(motif)),
        Event::Layer { .. } => None,
    }
}

/// Music passes through verbatim: forwarding a note or a chord makes
/// exactly that note or chord as a cue and nothing else, leaving the hearts
/// alone; a chord becomes the chord the pad last played. A new section is
/// passed on as itself, last, after at most a bell for a heart given back;
/// layer changes make no cue. Nothing else forwarding does touches the
/// chord.
pub proof fn lemma_music_passes_verbatim(hearts: nat, chord: Option<Chord>, event: Event)
    ensures
        event is Note ==> forward_one(hearts, chord, event) == (
            hearts,
            chord,
            seq![as_cue(event)->0],
        ),
        event matches Event::Chord(c) ==> forward_one(hearts, chord, event) == (
            hearts,
            Some(c),
            seq![Cue::Chord(c)],
        ),
        event is Section ==> {
            let cues = forward_one(hearts, chord, event).2;
            &&& 1 <= cues.len() <= 2
            &&& cues.last() == as_cue(event)->0
            &&& cues.len() == 2 ==> cues[0] is Bell
            &&& forward_one(hearts, chord, event).1 == chord
        },
        event is Layer ==> forward_one(hearts, chord, event) == (hearts, chord, Seq::<Cue>::empty()),
{
    if event is Layer {
        assert(forward_one(hearts, chord, event).2 =~= Seq::<Cue>::empty());
    }
}

impl Journey {
    /// A journey from a seed, on the title screen.
    pub fn new(seed: u64) -> (journey: Journey)
        ensures
            journey@.seed == seed,
            journey@.music == song_top(),
            journey@.phase == Phase::Title,
            !journey@.paused,
            journey@.hearts == MAX_HEARTS,
            journey@.chord is None,
            !journey@.holding,
            journey@.cues == Seq::<Cue>::empty(),
            journey@.consistent(),
    {
        Journey {
            seed,
            sequencer: Sequencer::new(),
            phase: Phase::Title,
            paused: false,
            hearts: MAX_HEARTS,
            chord: None,
            holding: false,
            cues: Vec::new(),
        }
    }

    /// Seed this journey was built from.
    pub fn seed(&self) -> (seed: u64)
        ensures
            seed == self@.seed,
    {
        self.seed
    }

    /// Where the game is.
    pub fn phase(&self) -> (phase: Phase)
        ensures
            phase == self@.phase,
    {
        self.phase
    }

    /// Whether ticking is currently suspended by the player.
    pub fn is_paused(&self) -> (paused: bool)
        ensures
            paused == self@.paused,
    {
        self.paused
    }

    /// Hearts left.
    pub fn hearts(&self) -> (hearts: u32)
        ensures
            hearts == self@.hearts,
    {
        self.hearts
    }

    /// Whether the music is being held right now.
    pub fn holding(&self) -> (holding: bool)
        ensures
            holding == self@.holding,
    {
        self.holding
    }

    /// Whether the pad is sounding, and so refilling the fermata.
    pub fn charging(&self) -> (charging: bool)
        ensures
            charging == self@.music.is_active(Instrument::Pad),
    {
        self.sequencer.is_active(Instrument::Pad)
    }

    /// The chord the pad last played, if it has.
    pub fn chord(&self) -> (chord: Option<Chord>)
        ensures
            chord == self@.chord,
    {
        self.chord
    }

    /// Where the music is.
    pub fn music(&self) -> (position: Position)
        ensures
            reports(position, self@.music),
    {
        self.sequencer.position()
    }

    /// Current motif.
    pub fn motif(&self) -> (motif: Motif)
        ensures
            motif == self@.music.motif(),
    {
        self.sequencer.motif()
    }

    /// What the current frame produced worth hearing. Valid until the next
    /// frame begins, which clears it.
    pub fn cues(&self) -> (cues: &[Cue])
        ensures
            cues@ == self@.cues,
    {
        self.cues.as_slice()
    }

    /// Begin a frame: clear the last frame's cues, then take the presses.
    /// Starting over replaces the journey with a fresh one already playing,
    /// announced with a bell on the home note. A press leaves the title
    /// screen. Only while playing does pause toggle, and only while playing
    /// and not paused may a section skip be queued. Returns whether the
    /// world may tick this frame.
    pub fn begin_frame(&mut self, controls: &Controls) -> (run: bool)
        requires
            old(self)@.consistent(),
        ensures
            final(self)@ == frame_begun(old(self)@, *controls).0,
            run == frame_begun(old(self)@, *controls).1,
            final(self)@.consistent(),
    {
        self.cues = Vec::new();
        if let Some(seed) = controls.restart {
            let mut fresh = Journey::new(seed);
            fresh.phase = Phase::Playing;
            fresh.cues.push(Cue::Restart);
            let home = fresh.motif().tonic().root();
            proof {
                lemma_home_notes(song_section(0).motif);
                assert(is_bell(home));
            }
            fresh.cues.push(Cue::Bell { pitch: home });
            *self = fresh;
        }
        if self.phase == Phase::Title && controls.start {
            self.phase = Phase::Playing;
        }
        if self.phase != Phase::Playing {
            return false;
        }
        if controls.toggle_pause {
            self.paused = !self.paused;
            self.cues.push(Cue::Pause { paused: self.paused });
        }
        if self.paused {
            return false;
        }
        if controls.next_section {
            self.sequencer.request_skip();
        }
        true
    }

    /// Hold the music or let it go, announcing the fermata as it begins
    /// and ends. Whether the pool allows holding is the world's to say.
    pub fn set_holding(&mut self, holding: bool)
        requires
            old(self)@.consistent(),
        ensures
            final(self)@ == (JourneyState {
                holding,
                cues: if holding != old(self)@.holding {
                    old(self)@.cues.push(Cue::Fermata { held: holding })
                } else {
                    old(self)@.cues
                },
                ..old(self)@
            }),
            final(self)@.consistent(),
    {
        if holding != self.holding {
            self.holding = holding;
            self.cues.push(Cue::Fermata { held: holding });
        }
    }

    /// One tick of music: the sequencer moves one tick on and hands back
    /// what sounded, for the world to act on and [`Journey::forward`] to
    /// pass on.
    pub fn advance_music(&mut self) -> (events: Vec<Event>)
        requires
            old(self)@.consistent(),
        ensures
            final(self)@ == (JourneyState { music: advanced(old(self)@.music, TICK as int).0, ..old(self)@ }),
            events@ == advanced(old(self)@.music, TICK as int).1,
            forall|i: int| 0 <= i < events@.len() ==> honest(#[trigger] events@[i]),
            final(self)@.consistent(),
    {
        let mut events: Vec<Event> = Vec::new();
        self.sequencer.advance(TICK, &mut events);
        proof {
            lemma_advance_is_honest(old(self)@.music, TICK as nat);
        }
        events
    }

    /// Pass one music event on as a cue, after the world has acted on it.
    /// The pad's chord is remembered for the palette, and a lullaby gives a
    /// lost heart back. A new section always leads its tick, so it comes
    /// while the journey is still under way.
    pub fn forward(&mut self, event: Event)
        requires
            old(self)@.consistent(),
            event is Section ==> old(self)@.phase != Phase::Over,
            honest(event),
        ensures
            ({
                let (hearts, chord, cues) = forward_one(old(self)@.hearts, old(self)@.chord, event);
                final(self)@ == (JourneyState {
                    hearts,
                    chord,
                    cues: old(self)@.cues + cues,
                    ..old(self)@
                })
            }),
            final(self)@.consistent(),
    {
        let ghost before = self.cues@;
        match event {
            Event::Note { instrument, pitch, velocity, .. } => {
                self.cues.push(Cue::Note { instrument, pitch, velocity });
            },
            Event::Chord(chord) => {
                self.chord = Some(chord);
                self.cues.push(Cue::Chord(chord));
            },
            Event::Section { motif } => {
                if motif == Motif::Lullaby && self.hearts < MAX_HEARTS {
                    proof {
                        lemma_home_notes(motif);
                    }
                    let bell = motif.tonic().root() + 12;
                    proof {
                        assert(is_bell(bell));
                    }
                    self.hearts = self.hearts + 1;
                    self.cues.push(Cue::Bell { pitch: bell });
                }
                self.cues.push(Cue::Section(motif));
            },
            Event::Layer { .. } => {},
        }
        proof {
            let (_, _, cues) = forward_one(old(self)@.hearts, old(self)@.chord, event);
            assert(self.cues@ == before + cues);
        }
    }

    /// Stompers began telegraphing a move.
    pub fn windup(&mut self)
        requires
            old(self)@.consistent(),
        ensures
            final(self)@ == (JourneyState { cues: old(self)@.cues.push(Cue::Windup), ..old(self)@ }),
            final(self)@.consistent(),
    {
        self.cues.push(Cue::Windup);
    }

    /// A stomper's shockwave went off.
    pub fn shock(&mut self)
        requires
            old(self)@.consistent(),
        ensures
            final(self)@ == (JourneyState { cues: old(self)@.cues.push(Cue::Shock), ..old(self)@ }),
            final(self)@.consistent(),
    {
        self.cues.push(Cue::Shock);
    }

    /// Something caught the player: a heart is lost, and with the last one
    /// the game.
    pub fn hit(&mut self)
        requires
            old(self)@.consistent(),
            old(self)@.hearts > 0,
        ensures
            final(self)@ == (JourneyState {
                hearts: (old(self)@.hearts - 1) as nat,
                phase: if old(self)@.hearts == 1 {
                    Phase::Over
                } else {
                    old(self)@.phase
                },
                cues: old(self)@.cues.push(Cue::Hit { fatal: old(self)@.hearts == 1 }),
                ..old(self)@
            }),
            final(self)@.consistent(),
    {
        self.hearts = self.hearts - 1;
        let fatal = self.hearts == 0;
        if fatal {
            self.phase = Phase::Over;
        }
        self.cues.push(Cue::Hit { fatal });
    }

    /// Home: the journey ends on the motif's home chord, with a bell two
    /// octaves above its root.
    pub fn arrive(&mut self)
        requires
            old(self)@.consistent(),
        ensures
            final(self)@ == (JourneyState {
                phase: Phase::Won,
                chord: Some(pad_chords(old(self)@.music.motif())[0]),
                cues: old(self)@.cues + seq![
                    Cue::Chord(pad_chords(old(self)@.music.motif())[0]),
                    Cue::Bell { pitch: (home_note(old(self)@.music.motif()) + 24) as u8 },
                ],
                ..old(self)@
            }),
            final(self)@.consistent(),
    {
        let motif = self.motif();
        let tonic = motif.tonic();
        proof {
            lemma_home_notes(motif);
        }
        let bell = tonic.root() + 24;
        proof {
            assert(is_bell(bell));
            assert(pad_plays(tonic));
        }
        self.chord = Some(tonic);
        self.cues.push(Cue::Chord(tonic));
        self.cues.push(Cue::Bell { pitch: bell });
        self.phase = Phase::Won;
        proof {
            assert(self.cues@ =~= old(self)@.cues + seq![Cue::Chord(tonic), Cue::Bell { pitch: bell }]);
        }
    }
}

/// The bar that began over one tick of music, if one did: the music
/// moved (or sounded for the first time) and now stands on the first step
/// of a bar.
pub fn bar_begun(first: bool, before: Position, after: Position) -> (bar: Option<u32>)
    ensures
        bar == (if (first || before.section != after.section || before.bar != after.bar
            || before.step != after.step) && after.step == 0 {
            Some(after.bar)
        } else {
            None
        }),
{
    let moved = first || before.section != after.section || before.bar != after.bar
        || before.step != after.step;
    if moved && after.step == 0 {
        Some(after.bar)
    } else {
        None
    }
}

/// Which lane a bass note raises: the twelve pitch classes split across the
/// lanes, so a bass line walks the walls up and down the road.
pub fn lane_of_pitch(pitch: u8) -> (lane: usize)
    ensures
        lane == (pitch % 12) as int * WALL_LANES / 12,
        lane < WALL_LANES,
{
    (pitch % 12) as usize * WALL_LANES / 12
}

/// Which lane the wall with grid index `k` belongs to. Walls cycle through
/// the lanes along the way home.
pub fn lane_of_wall(k: i32) -> (lane: usize)
    ensures
        lane as int == k as int % WALL_LANES as int,
        lane < WALL_LANES,
{
    match k.checked_rem_euclid(WALL_LANES as i32) {
        Some(lane) => lane as usize,
        None => 0,
    }
}

/// Whether wall `k`'s gaps sit half a period off the even walls', so the
/// way through zigzags.
pub fn gaps_shifted(k: i32) -> (shifted: bool)
    ensures
        shifted == (k as int % 2 == 1),
{
    match k.checked_rem_euclid(2) {
        Some(r) => r == 1,
        None => false,
    }
}

/// Whether spinners stand between walls `k` and `k + 1`: every
/// [`SPINNER_EVERY`]th column has them.
pub fn has_spinners(k: i32) -> (spinners: bool)
    ensures
        spinners == (k as int % SPINNER_EVERY as int == 0),
{
    match k.checked_rem_euclid(SPINNER_EVERY) {
        Some(r) => r == 0,
        None => false,
    }
}

/// What a drum does to the world's geometry, whatever the motif.
#[derive(Clone, Copy, Debug, PartialEq, Eq, Hash, Structural)]
pub enum DrumGeometry {
    /// Snares slam the gates shut across every standing wall's gaps.
    SlamGates,
    /// Hats turn the spinners a notch.
    TurnSpinners,
}

/// What one drum hit does to one stomper.
#[derive(Clone, Copy, Debug, PartialEq, Eq, Hash, Structural)]
pub enum StomperMove {
    /// Nothing.
    Stay,
    /// Lunge straight at the player.
    LungeAtPlayer,
    /// Lunge along its heading.
    LungeAlongHeading,
    /// Turn to a new heading, sometimes toward the player.
    Turn,
}

/// The move stompers telegraph at the top of a bar.
#[derive(Clone, Copy, Debug, PartialEq, Eq, Hash, Structural)]
pub enum Telegraph {
    /// Wind up for a beat along a line, then dash down it.
    Charge,
    /// Swell for a beat, then stomp a shockwave.
    Stomp,
}

/// What a drum does to the geometry: snares slam the gates, hats turn the
/// spinners, kicks leave the geometry alone.
pub fn drum_geometry(pitch: u8) -> (geometry: Option<DrumGeometry>)
    ensures
        geometry == (if pitch == SNARE {
            Some(DrumGeometry::SlamGates)
        } else if pitch == HAT {
            Some(DrumGeometry::TurnSpinners)
        } else {
            None
        }),
{
    if pitch == SNARE {
        Some(DrumGeometry::SlamGates)
    } else if pitch == HAT {
        Some(DrumGeometry::TurnSpinners)
    } else {
        None
    }
}

/// What a drum hit does to a stomper, by motif. Only idle stompers answer
/// the drums. In a pursuit, kicks send the hunters at the player; while
/// wandering, kicks step every stomper along its heading and snares turn
/// it; the lullaby has them asleep, whatever the drums do.
pub fn stomper_move(motif: Motif, pitch: u8, idle: bool, hunting: bool) -> (step: StomperMove)
    ensures
        step == (if !idle || motif == Motif::Lullaby {
            StomperMove::Stay
        } else if motif == Motif::Pursuit && pitch == KICK && hunting {
            StomperMove::LungeAtPlayer
        } else if motif == Motif::Wander && pitch == KICK {
            StomperMove::LungeAlongHeading
        } else if motif == Motif::Wander && pitch == SNARE {
            StomperMove::Turn
        } else {
            StomperMove::Stay
        }),
        motif == Motif::Lullaby ==> step == StomperMove::Stay,
        step != StomperMove::Stay ==> pitch == KICK || pitch == SNARE,
{
    if !idle {
        return StomperMove::Stay;
    }
    match motif {
        Motif::Pursuit => if pitch == KICK && hunting {
            StomperMove::LungeAtPlayer
        } else {
            StomperMove::Stay
        },
        Motif::Wander => if pitch == KICK {
            StomperMove::LungeAlongHeading
        } else if pitch == SNARE {
            StomperMove::Turn
        } else {
            StomperMove::Stay
        },
        Motif::Lullaby => StomperMove::Stay,
    }
}

/// What the stompers near enough telegraph at the top of bar `bar` of a
/// section: a charge on the even bars of a pursuit, a stomp on the odd bars
/// of a wander, nothing in a lullaby.
pub fn telegraph(motif: Motif, bar: u32) -> (move_shown: Option<Telegraph>)
    ensures
        move_shown == (if motif == Motif::Pursuit && bar % 2 == 0 {
            Some(Telegraph::Charge)
        } else if motif == Motif::Wander && bar % 2 == 1 {
            Some(Telegraph::Stomp)
        } else {
            None
        }),
{
    match motif {
        Motif::Pursuit => if bar % 2 == 0 {
            Some(Telegraph::Charge)
        } else {
            None
        },
        Motif::Wander => if bar % 2 == 1 {
            Some(Telegraph::Stomp)
        } else {
            None
        },
        Motif::Lullaby => None,
    }
}

/// Half-beats a wall takes to sink after its last note: a beat and a half
/// while wandering, two and a half in a pursuit to trap, four in the
/// lullaby to linger.
pub fn sink_half_beats(motif: Motif) -> (half_beats: u32)
    ensures
        half_beats == (match motif {
            Motif::Wander => 3u32,
            Motif::Pursuit => 5u32,
            Motif::Lullaby => 8u32,
        }),
{
    match motif {
        Motif::Wander => 3,
        Motif::Pursuit => 5,
        Motif::Lullaby => 8,
    }
}

/// The player's speed under a motif, in percent of top speed: normal while
/// wandering, a little faster in a pursuit, slower in the lullaby.
pub fn speed_percent(motif: Motif) -> (percent: u32)
    ensures
        percent == (match motif {
            Motif::Wander => 100u32,
            Motif::Pursuit => 115u32,
            Motif::Lullaby => 70u32,
        }),
{
    match motif {
        Motif::Wander => 100,
        Motif::Pursuit => 115,
        Motif::Lullaby => 70,
    }
}

/// Speed a kick adds to a stomper, in world units a second.
pub fn lunge_speed(motif: Motif) -> (speed: u32)
    ensures
        speed == (match motif {
            Motif::Wander => 240u32,
            Motif::Pursuit => 360u32,
            Motif::Lullaby => 0u32,
        }),
{
    match motif {
        Motif::Wander => 240,
        Motif::Pursuit => 360,
        Motif::Lullaby => 0,
    }
}

} // verus!
