use game_prototypes::leitmotif::sim::{
    bar_begun, drum_geometry, gaps_shifted, has_spinners, lane_of_pitch, lane_of_wall, lunge_speed,
    sink_half_beats, speed_percent, stomper_move, telegraph, Controls, Cue, DrumGeometry, Journey,
    Phase, StomperMove, Telegraph, MAX_HEARTS, WALL_LANES,
};
use game_prototypes::leitmotif::song::{
    chords, pitches, song, Event, Instrument, Motif, CLOCK_RATE, FULL_VELOCITY, HAT, KICK, SNARE,
    TICK,
};

#[test]
fn lanes_cover_every_wall() {
    let lanes: std::collections::BTreeSet<usize> = (0..12).map(lane_of_pitch).collect();
    assert_eq!(lanes.len(), WALL_LANES);
    assert!(lanes.iter().all(|&lane| lane < WALL_LANES));
    for k in -8..8 {
        assert!(lane_of_wall(k) < WALL_LANES);
    }
    assert_eq!(lane_of_wall(-1), WALL_LANES - 1);
}

#[test]
fn sim_lanes_cover_every_wall() {
    let lanes: std::collections::BTreeSet<usize> = (0..12).map(lane_of_pitch).collect();
    assert_eq!(lanes.len(), WALL_LANES);
    assert!(lanes.iter().all(|&lane| lane < WALL_LANES));
}

#[test]
fn walls_alternate_and_spinners_stand_every_fourth_column() {
    assert!(!gaps_shifted(0));
    assert!(gaps_shifted(1));
    assert!(gaps_shifted(-1));
    assert!(!gaps_shifted(-2));
    assert!(has_spinners(0));
    assert!(has_spinners(-4));
    assert!(!has_spinners(3));
    assert!(!has_spinners(-3));
    assert_eq!(lane_of_wall(i32::MIN), 0);
    assert_eq!(lane_of_pitch(36), 0);
    assert_eq!(lane_of_pitch(47), 3);
}

fn press_start() -> Controls {
    Controls {
        start: true,
        ..Controls::default()
    }
}

/// A journey that has left the title screen.
fn playing(seed: u64) -> Journey {
    let mut journey = Journey::new(seed);
    assert!(journey.begin_frame(&press_start()));
    assert_eq!(journey.phase(), Phase::Playing);
    journey
}

/// One frame of one tick: the music moves and everything it played is
/// passed on.
fn tick(journey: &mut Journey, controls: &Controls) -> bool {
    if !journey.begin_frame(controls) {
        return false;
    }
    journey.set_holding(controls.hold);
    if !journey.holding() {
        for event in journey.advance_music() {
            journey.forward(event);
        }
    }
    true
}

#[test]
fn journey_title_screen_is_silent_and_still() {
    let mut journey = Journey::new(1);
    for _ in 0..120 {
        assert!(!tick(&mut journey, &Controls::default()));
        assert!(journey.cues().is_empty());
    }
    assert_eq!(journey.phase(), Phase::Title);
    assert_eq!(journey.music().section, 0);
    assert_eq!(journey.music().step_elapsed, 0);
}

#[test]
fn journey_pause_freezes_the_music() {
    let mut journey = playing(7);
    let toggle = Controls {
        toggle_pause: true,
        ..Controls::default()
    };
    assert!(!tick(&mut journey, &toggle));
    assert!(journey.is_paused());
    assert_eq!(journey.cues(), [Cue::Pause { paused: true }]);
    let music = journey.music();
    for _ in 0..180 {
        assert!(!tick(&mut journey, &Controls::default()));
        assert!(journey.cues().is_empty());
    }
    assert_eq!(journey.music(), music);
    assert!(tick(&mut journey, &toggle));
    assert_eq!(journey.cues().first(), Some(&Cue::Pause { paused: false }));
}

#[test]
fn journey_music_reaches_the_frontend() {
    let mut journey = playing(3);
    let mut notes = 0;
    for _ in 0..60 {
        tick(&mut journey, &Controls::default());
        notes += journey
            .cues()
            .iter()
            .filter(|c| matches!(c, Cue::Note { .. }))
            .count();
        assert!(journey.cues().len() <= 16, "cues piling up: {:?}", journey.cues());
    }
    assert!(notes > 0, "a second of play made no notes");
}

#[test]
fn journey_cues_do_not_outlive_their_frame() {
    let mut journey = playing(7);
    let toggle = Controls {
        toggle_pause: true,
        ..Controls::default()
    };
    tick(&mut journey, &toggle);
    assert!(!journey.cues().is_empty());
    tick(&mut journey, &Controls::default());
    assert!(journey.cues().is_empty(), "stale cues: {:?}", journey.cues());
}

#[test]
fn journey_restart_replaces_everything_and_skips_the_title() {
    let mut journey = playing(5);
    for _ in 0..300 {
        tick(&mut journey, &Controls::default());
    }
    journey.hit();
    assert!(tick(
        &mut journey,
        &Controls {
            restart: Some(6),
            ..Controls::default()
        }
    ));
    assert_eq!(journey.seed(), 6);
    assert_eq!(journey.phase(), Phase::Playing);
    assert_eq!(journey.hearts(), MAX_HEARTS);
    assert_eq!(journey.cues().first(), Some(&Cue::Restart));
    assert_eq!(journey.cues().get(1), Some(&Cue::Bell { pitch: 60 }));
    assert_eq!(journey.music().section, 0);
}

#[test]
fn journey_next_section_skips_at_the_bar() {
    let mut journey = playing(5);
    for _ in 0..6 {
        tick(&mut journey, &Controls::default());
    }
    tick(
        &mut journey,
        &Controls {
            next_section: true,
            ..Controls::default()
        },
    );
    assert_eq!(journey.music().section, 0);
    let bar_ticks = (journey.motif().bar_units() / TICK) as usize + 1;
    let mut sections = 0;
    for _ in 0..bar_ticks {
        tick(&mut journey, &Controls::default());
        sections += journey
            .cues()
            .iter()
            .filter(|c| matches!(c, Cue::Section(_)))
            .count();
    }
    assert_eq!(sections, 1);
    assert_eq!(journey.music().section, 1);
}

#[test]
fn journey_hits_cost_hearts_then_the_game() {
    let mut journey = playing(11);
    journey.hit();
    assert_eq!(journey.hearts(), MAX_HEARTS - 1);
    assert_eq!(journey.cues().last(), Some(&Cue::Hit { fatal: false }));
    journey.hit();
    journey.hit();
    assert_eq!(journey.hearts(), 0);
    assert_eq!(journey.phase(), Phase::Over);
    assert_eq!(journey.cues().last(), Some(&Cue::Hit { fatal: true }));
    // Over means done: no more ticks, no more music.
    assert!(!tick(&mut journey, &Controls::default()));
    assert!(journey.cues().is_empty());
}

#[test]
fn journey_the_lullaby_gives_a_heart_back() {
    let mut journey = playing(11);
    journey.hit();
    let lullaby = song().iter().position(|s| s.motif == Motif::Lullaby).unwrap();
    let mut bell = false;
    for _ in 0..(60 * 120) {
        tick(&mut journey, &Controls::default());
        bell |= journey.cues().contains(&Cue::Bell { pitch: 53 + 12 });
        if journey.music().section == lullaby {
            break;
        }
    }
    assert_eq!(journey.music().section, lullaby);
    assert_eq!(journey.hearts(), MAX_HEARTS);
    assert!(bell, "no bell for the heart");
}

#[test]
fn journey_the_fermata_holds_the_music() {
    let mut journey = playing(20);
    tick(&mut journey, &Controls::default());
    let hold = Controls {
        hold: true,
        ..Controls::default()
    };
    tick(&mut journey, &hold);
    assert!(journey.holding());
    assert!(journey.cues().contains(&Cue::Fermata { held: true }));
    let music = journey.music();
    for _ in 0..30 {
        tick(&mut journey, &hold);
        assert!(!journey.cues().iter().any(|c| matches!(c, Cue::Note { .. })));
    }
    assert_eq!(journey.music(), music);
    tick(&mut journey, &Controls::default());
    assert!(journey.cues().contains(&Cue::Fermata { held: false }));
}

#[test]
fn journey_reaching_home_wins_and_resolves() {
    let mut journey = playing(5);
    tick(&mut journey, &Controls::default());
    journey.arrive();
    let tonic = journey.motif().tonic();
    assert_eq!(journey.phase(), Phase::Won);
    let cues = journey.cues();
    let at = cues
        .iter()
        .position(|c| {
            *c == Cue::Bell {
                pitch: tonic.root() + 24,
            }
        })
        .expect("home bell");
    assert_eq!(cues[at - 1], Cue::Chord(tonic));
    assert_eq!(journey.chord(), Some(tonic));
    assert!(!tick(&mut journey, &Controls::default()));
}

#[test]
fn journey_a_full_song_plays_through() {
    let mut journey = playing(0xA5);
    let total: u32 = song().iter().map(|s| s.motif.bar_units() * 4).sum();
    let ticks = total / TICK + 60;
    let mut sections = 0;
    for _ in 0..ticks {
        tick(&mut journey, &Controls::default());
        sections += journey
            .cues()
            .iter()
            .filter(|c| matches!(c, Cue::Section(_)))
            .count();
    }
    // Every section announced once, plus the wrap back to the top.
    assert_eq!(sections, song().len() + 1);
    assert_eq!(journey.phase(), Phase::Playing);
    assert_eq!(TICK * 60, CLOCK_RATE);
}

#[test]
fn the_motif_sets_the_rules() {
    assert_eq!(drum_geometry(SNARE), Some(DrumGeometry::SlamGates));
    assert_eq!(drum_geometry(HAT), Some(DrumGeometry::TurnSpinners));
    assert_eq!(drum_geometry(KICK), None);
    // Asleep through the lullaby, whatever the drums do.
    for pitch in [KICK, SNARE, HAT] {
        assert_eq!(stomper_move(Motif::Lullaby, pitch, true, true), StomperMove::Stay);
    }
    assert_eq!(stomper_move(Motif::Pursuit, KICK, true, true), StomperMove::LungeAtPlayer);
    assert_eq!(stomper_move(Motif::Pursuit, KICK, true, false), StomperMove::Stay);
    assert_eq!(stomper_move(Motif::Pursuit, KICK, false, true), StomperMove::Stay);
    assert_eq!(stomper_move(Motif::Wander, KICK, true, false), StomperMove::LungeAlongHeading);
    assert_eq!(stomper_move(Motif::Wander, SNARE, true, false), StomperMove::Turn);
    assert_eq!(stomper_move(Motif::Wander, HAT, true, true), StomperMove::Stay);
    assert_eq!(telegraph(Motif::Pursuit, 0), Some(Telegraph::Charge));
    assert_eq!(telegraph(Motif::Pursuit, 1), None);
    assert_eq!(telegraph(Motif::Wander, 1), Some(Telegraph::Stomp));
    assert_eq!(telegraph(Motif::Wander, 2), None);
    assert_eq!(telegraph(Motif::Lullaby, 1), None);
    assert!(sink_half_beats(Motif::Wander) < sink_half_beats(Motif::Pursuit));
    assert!(sink_half_beats(Motif::Pursuit) < sink_half_beats(Motif::Lullaby));
    assert_eq!(speed_percent(Motif::Pursuit), 115);
    assert_eq!(speed_percent(Motif::Lullaby), 70);
    assert_eq!(lunge_speed(Motif::Lullaby), 0);
    assert_eq!(lunge_speed(Motif::Wander), 240);
}

#[test]
fn journey_waiting_frames_are_still_and_silent() {
    // Over: a frame without a restart changes nothing and lets nothing tick.
    let mut journey = playing(3);
    for _ in 0..MAX_HEARTS {
        journey.hit();
    }
    assert_eq!(journey.phase(), Phase::Over);
    let hearts = journey.hearts();
    let section = journey.music().section;
    assert!(!journey.begin_frame(&Controls {
        toggle_pause: true,
        next_section: true,
        ..Controls::default()
    }));
    assert!(journey.cues().is_empty());
    assert_eq!(journey.phase(), Phase::Over);
    assert_eq!(journey.hearts(), hearts);
    assert!(!journey.is_paused());
    assert_eq!(journey.music().section, section);
}

#[test]
fn every_event_the_music_hands_on_is_honest() {
    let mut journey = playing(5);
    let pads = chords();
    for _ in 0..60 * 60 {
        for event in journey.advance_music() {
            match event {
                Event::Note { instrument, pitch, velocity, .. } => {
                    assert_ne!(instrument, Instrument::Pad);
                    assert!(pitches(instrument).contains(&pitch));
                    assert!(velocity <= FULL_VELOCITY);
                }
                Event::Chord(chord) => assert!(pads.contains(&chord)),
                _ => {}
            }
        }
    }
}

#[test]
fn a_bar_begins_when_the_music_lands_on_its_first_step() {
    let mut journey = playing(9);
    let mut bars = Vec::new();
    let mut first = true;
    for _ in 0..60 * 8 {
        let before = journey.music();
        journey.advance_music();
        let after = journey.music();
        if let Some(bar) = bar_begun(first, before, after) {
            bars.push((after.section, bar));
        }
        first = false;
    }
    assert_eq!(&bars[..3], &[(0, 0), (0, 1), (0, 2)]);
    // Standing still on a bar's first step is no new bar.
    let here = journey.music();
    assert_eq!(bar_begun(false, here, here), None);
}
