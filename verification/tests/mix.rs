use game_prototypes::leitmotif::mix::{all_voices, bell_pitches, voice_for, Voice};
use game_prototypes::leitmotif::sim::{Controls, Cue, Journey};
use game_prototypes::leitmotif::song::{chords, song, Instrument, Motif, HAT, KICK, SNARE, TICK};

#[test]
fn every_cue_of_a_whole_song_has_a_baked_voice() {
    let voices = all_voices();
    assert!(voices.len() > 20, "suspiciously few voices: {}", voices.len());
    let mut journey = Journey::new(0xA0D10);
    journey.begin_frame(&Controls {
        start: true,
        ..Controls::default()
    });
    let total: u32 = song().iter().map(|s| s.motif.bar_units() * 4).sum();
    for tick in 0..(total / TICK + 60) {
        // Hold now and then so the fermata cues get exercised too.
        let hold = tick % 600 < 30;
        if !journey.begin_frame(&Controls::default()) {
            break;
        }
        journey.set_holding(hold);
        if !hold {
            for event in journey.advance_music() {
                journey.forward(event);
            }
        }
        for &cue in journey.cues() {
            match voice_for(cue) {
                Some((voice, gain)) => {
                    assert!(voices.contains(&voice), "{cue:?} wants unbaked {voice:?}");
                    assert!(gain > 0 && gain <= 1000, "{cue:?} at gain {gain}");
                }
                None => assert!(
                    matches!(
                        cue,
                        Cue::Section(_) | Cue::Fermata { held: false } | Cue::Restart
                    ),
                    "{cue:?} is silent by accident"
                ),
            }
        }
    }
    // And the bells of every motif are baked, whichever section wins.
    for motif in [Motif::Wander, Motif::Pursuit, Motif::Lullaby] {
        let root = motif.tonic().root();
        for pitch in [root, root + 12, root + 24] {
            assert!(voices.contains(&Voice::Bell(pitch)), "no bell at {pitch}");
        }
    }
}

#[test]
fn bells_ring_in_key() {
    assert_eq!(bell_pitches(), vec![53, 57, 60, 65, 69, 72, 77, 81, 84]);
}

#[test]
fn the_policy_table() {
    let note = |instrument, pitch| Cue::Note {
        instrument,
        pitch,
        velocity: 1000,
    };
    assert_eq!(voice_for(note(Instrument::Drums, KICK)), Some((Voice::Drum(KICK), 850)));
    assert_eq!(voice_for(note(Instrument::Drums, SNARE)), Some((Voice::Drum(SNARE), 600)));
    assert_eq!(voice_for(note(Instrument::Drums, HAT)), Some((Voice::Drum(HAT), 220)));
    assert_eq!(voice_for(note(Instrument::Drums, 40)), None);
    assert_eq!(voice_for(note(Instrument::Bass, 36)), Some((Voice::Bass(36), 600)));
    assert_eq!(voice_for(note(Instrument::Lead, 69)), Some((Voice::Lead(69), 500)));
    assert_eq!(voice_for(note(Instrument::Pad, 60)), None);
    let chord = chords()[0];
    assert_eq!(voice_for(Cue::Chord(chord)), Some((Voice::Pad(chord), 550)));
    assert_eq!(voice_for(Cue::Hit { fatal: true }), Some((Voice::Thump, 900)));
    assert_eq!(voice_for(Cue::Shock), Some((Voice::Thump, 700)));
    assert_eq!(voice_for(Cue::Windup), Some((Voice::Riser, 350)));
    assert_eq!(voice_for(Cue::Fermata { held: true }), Some((Voice::Breath, 450)));
    assert_eq!(voice_for(Cue::Fermata { held: false }), None);
    assert_eq!(voice_for(Cue::Bell { pitch: 60 }), Some((Voice::Bell(60), 500)));
    assert_eq!(voice_for(Cue::Section(Motif::Wander)), None);
    assert_eq!(voice_for(Cue::Pause { paused: true }), None);
    assert_eq!(voice_for(Cue::Restart), None);
}

#[test]
fn every_voice_is_baked_once() {
    let voices = all_voices();
    let mut unique = voices.clone();
    unique.sort_by_key(|v| format!("{v:?}"));
    unique.dedup();
    assert_eq!(unique.len(), voices.len());
    assert_eq!(&voices[..3], &[Voice::Thump, Voice::Breath, Voice::Riser]);
    assert_eq!(voices.len(), 45);
}
