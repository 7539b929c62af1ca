use game_prototypes::leitmotif::song::{
    chords, pitches, song, Event, Instrument, Motif, Sequencer, BARS_PER_SECTION, BEATS_PER_BAR,
    CLOCK_RATE, FULL_VELOCITY, STEPS_PER_BAR, STEPS_PER_BEAT, STEPS_PER_SECTION, TICK,
};

/// Seconds per bar of a motif.
fn bar_secs(motif: Motif) -> f32 {
    motif.bar_units() as f32 / CLOCK_RATE as f32
}

/// Run the sequencer at 60 Hz for `secs`, collecting everything.
fn run(seq: &mut Sequencer, secs: f32) -> Vec<Event> {
    let mut events = Vec::new();
    let ticks = (secs * 60.0).round() as u32;
    for _ in 0..ticks {
        seq.advance(TICK, &mut events);
    }
    events
}

fn notes_for(events: &[Event], wanted: Instrument) -> Vec<(u8, u32)> {
    events
        .iter()
        .filter_map(|event| match event {
            Event::Note {
                instrument,
                pitch,
                step,
                ..
            } if *instrument == wanted => Some((*pitch, *step)),
            _ => None,
        })
        .collect()
}

fn motifs() -> [Motif; 3] {
    [Motif::Wander, Motif::Pursuit, Motif::Lullaby]
}

#[test]
fn scores_are_well_formed() {
    for motif in motifs() {
        let score = motif.score();
        for (name, pattern) in [
            ("kick", &score.kick),
            ("snare", &score.snare),
            ("hat", &score.hat),
        ] {
            for &step in pattern.iter() {
                assert!(
                    u32::from(step) < STEPS_PER_BAR,
                    "{motif:?} {name} pattern is not one bar"
                );
            }
            let mut sorted = pattern.clone();
            sorted.sort_unstable();
            sorted.dedup();
            assert_eq!(*pattern, sorted, "{motif:?} {name} has a stray character");
        }
        for (name, notes) in [("bass", &score.bass), ("lead", &score.lead)] {
            assert!(!notes.is_empty(), "{motif:?} has no {name}");
            for &(step, _) in notes.iter() {
                assert!(
                    u32::from(step) < STEPS_PER_SECTION,
                    "{motif:?} {name} note at step {step} is past the phrase"
                );
            }
            let steps: Vec<u8> = notes.iter().map(|&(s, _)| s).collect();
            let mut sorted = steps.clone();
            sorted.sort_unstable();
            sorted.dedup();
            assert_eq!(steps, sorted, "{motif:?} {name} steps are not ascending");
        }
        for chord in score.pad {
            assert!(
                chord.notes[0] < chord.notes[1] && chord.notes[1] < chord.notes[2],
                "{motif:?} chord {chord:?} is not voiced lowest-first"
            );
        }
    }
}

#[test]
fn first_advance_announces_the_section_and_the_downbeat() {
    let mut seq = Sequencer::new();
    let mut events = Vec::new();
    seq.advance(0, &mut events);
    assert_eq!(
        events.first(),
        Some(&Event::Section {
            motif: song()[0].motif
        })
    );
    // Section 0 arranges bass and lead, both of which start on step 0.
    assert!(!notes_for(&events, Instrument::Bass).is_empty());
    assert!(!notes_for(&events, Instrument::Lead).is_empty());
    // ...and not drums, which the intro leaves out.
    assert!(notes_for(&events, Instrument::Drums).is_empty());
}

#[test]
fn sections_last_exactly_one_phrase() {
    let mut seq = Sequencer::new();
    let phrase = bar_secs(song()[0].motif) * BARS_PER_SECTION as f32;
    // Just short of the boundary: still in section 0.
    let events = run(&mut seq, phrase - 0.05);
    let sections = events
        .iter()
        .filter(|e| matches!(e, Event::Section { .. }))
        .count();
    assert_eq!(sections, 1, "left section 0 early");
    assert_eq!(seq.position().section, 0);

    // Over it: section 1.
    let events = run(&mut seq, 0.1);
    assert!(events.contains(&Event::Section {
        motif: song()[1].motif
    }));
    assert_eq!(seq.position().section, 1);
    assert_eq!(seq.position().bar, 0);
}

#[test]
fn song_loops() {
    let mut seq = Sequencer::new();
    let total: f32 = song()
        .iter()
        .map(|s| bar_secs(s.motif) * BARS_PER_SECTION as f32)
        .sum();
    run(&mut seq, total + 0.1);
    assert_eq!(seq.position().section, 0, "did not wrap to the top");
}

#[test]
fn hushing_is_immediate_and_announced() {
    let mut seq = Sequencer::new();
    run(&mut seq, 0.1);
    let mut events = Vec::new();
    seq.set_muted(Instrument::Lead, true, &mut events);
    assert_eq!(
        events,
        [Event::Layer {
            instrument: Instrument::Lead,
            on: false
        }]
    );
    assert!(!seq.is_active(Instrument::Lead));
    assert!(seq.position().layers[Instrument::Lead.index()].muted);

    // Nothing from the lead while it is hushed; the bass carries on.
    let events = run(&mut seq, bar_secs(song()[0].motif));
    assert!(notes_for(&events, Instrument::Lead).is_empty());
    assert!(!notes_for(&events, Instrument::Bass).is_empty());

    // Letting go announces itself once, and repeating it says nothing.
    let mut events = Vec::new();
    seq.set_muted(Instrument::Lead, false, &mut events);
    seq.set_muted(Instrument::Lead, false, &mut events);
    assert_eq!(events.len(), 1);
    assert!(seq.is_active(Instrument::Lead));
}

#[test]
fn hushing_does_not_override_the_arrangement() {
    let mut seq = Sequencer::new();
    run(&mut seq, 0.1);
    // Section 0 has no drums; unhushing cannot conjure them.
    assert!(!seq.is_active(Instrument::Drums));
    seq.set_muted(Instrument::Drums, false, &mut Vec::new());
    let events = run(&mut seq, bar_secs(song()[0].motif));
    assert!(notes_for(&events, Instrument::Drums).is_empty());
    // And a hush held into the section that has them keeps them quiet.
    seq.set_muted(Instrument::Drums, true, &mut Vec::new());
    let phrase = bar_secs(song()[0].motif) * BARS_PER_SECTION as f32;
    let events = run(&mut seq, phrase);
    assert_eq!(seq.position().section, 1);
    assert!(notes_for(&events, Instrument::Drums).is_empty());
}

#[test]
fn skip_jumps_at_the_next_bar() {
    let mut seq = Sequencer::new();
    run(&mut seq, 0.1);
    seq.request_skip();
    let events = run(&mut seq, bar_secs(song()[0].motif));
    assert!(events.contains(&Event::Section {
        motif: song()[1].motif
    }));
    assert_eq!(seq.position().section, 1);
    assert_eq!(seq.position().step, 0);
}

#[test]
fn pad_plays_one_chord_per_bar() {
    let mut seq = Sequencer::new();
    // Skip the intro, which has no pad.
    let phrase = bar_secs(song()[0].motif) * BARS_PER_SECTION as f32;
    run(&mut seq, phrase + 0.01);
    assert_eq!(seq.position().section, 1);
    let events = run(&mut seq, bar_secs(song()[1].motif) * BARS_PER_SECTION as f32);
    let chords = events
        .iter()
        .filter(|e| matches!(e, Event::Chord(_)))
        .count();
    // Four bars: bars 1, 2 and 3 of this section plus bar 0 of the next.
    assert_eq!(chords, BARS_PER_SECTION as usize);
}

#[test]
fn every_pitch_played_is_in_the_bake_list() {
    let mut seq = Sequencer::new();
    let total: f32 = song()
        .iter()
        .map(|s| bar_secs(s.motif) * BARS_PER_SECTION as f32)
        .sum();
    let events = run(&mut seq, total + 0.1);
    for instrument in Instrument::ALL {
        let baked = pitches(instrument);
        for (pitch, _) in notes_for(&events, instrument) {
            assert!(
                baked.contains(&pitch),
                "{instrument:?} plays {pitch}, which is not baked"
            );
        }
    }
    for event in &events {
        if let Event::Chord(chord) = event {
            assert!(chords().contains(chord), "{chord:?} is not baked");
        }
    }
    // And every arranged instrument sounded at least once.
    for instrument in Instrument::ALL {
        assert!(
            !notes_for(&events, instrument).is_empty() || instrument == Instrument::Pad,
            "{instrument:?} never played"
        );
    }
}

#[test]
fn velocity_is_in_range_and_accents_the_beat() {
    let mut seq = Sequencer::new();
    let events = run(&mut seq, 5.0);
    for event in &events {
        if let Event::Note { velocity, step, .. } = event {
            assert!((0..=FULL_VELOCITY).contains(velocity));
            if *step % STEPS_PER_BEAT != 0 {
                assert!(*velocity < FULL_VELOCITY, "off-beat note at full velocity");
            }
        }
    }
}

#[test]
fn position_phases_stay_in_range() {
    let mut seq = Sequencer::new();
    // 0.013 s a frame, in clock units.
    let frame = (0.013 * CLOCK_RATE as f32).round() as u32;
    for _ in 0..600 {
        seq.advance(frame, &mut Vec::new());
        let pos = seq.position();
        let step_phase = pos.step_elapsed as f32 / pos.step_length as f32;
        let beat_phase =
            ((pos.step % STEPS_PER_BEAT) as f32 + step_phase) / STEPS_PER_BEAT as f32;
        assert!((0.0..=1.0).contains(&step_phase));
        assert!((0.0..=1.0).contains(&beat_phase));
        assert!(pos.bar < BARS_PER_SECTION);
        assert!(pos.beat < BEATS_PER_BAR);
        assert!(pos.step < STEPS_PER_BAR);
    }
}

#[test]
fn bake_lists_are_sorted_and_exact() {
    assert_eq!(pitches(Instrument::Drums), vec![36, 38, 42]);
    assert_eq!(pitches(Instrument::Bass), vec![36, 38, 40, 41, 43, 44, 45, 46]);
    let lead = pitches(Instrument::Lead);
    assert_eq!(lead.first(), Some(&60));
    assert_eq!(lead.last(), Some(&77));
    assert!(lead.windows(2).all(|w| w[0] < w[1]));
    let all = chords();
    // Nine distinct voicings: the pursuit shares two of the wander's, and
    // the lullaby repeats its own F major.
    assert_eq!(all.len(), 9);
    assert!(all.windows(2).all(|w| w[0].notes < w[1].notes));
    assert_eq!(pitches(Instrument::Pad).first(), Some(&52));
}

#[test]
fn motif_facts() {
    assert_eq!(Motif::Wander.bpm(), 110);
    assert_eq!(Motif::Pursuit.bpm(), 132);
    assert_eq!(Motif::Lullaby.bpm(), 84);
    // A beat is sixty over the tempo seconds, exactly.
    for motif in motifs() {
        assert_eq!(motif.beat_units() * motif.bpm(), 60 * CLOCK_RATE);
        assert_eq!(motif.bar_units(), motif.step_units() * STEPS_PER_BAR);
    }
    assert_eq!(Motif::Wander.tonic().root(), 60);
    assert_eq!(Motif::Pursuit.tonic().notes, [57, 60, 64]);
    assert_eq!(Motif::Lullaby.lead_range(), (64, 72));
    assert_eq!(Motif::Pursuit.lead_range(), (68, 77));
    assert_eq!(Motif::Wander.name(), "wander");
    assert_eq!(Instrument::Pad.name(), "pad");
    assert_eq!(Instrument::Lead.index(), 2);
    assert_eq!(TICK * 60, CLOCK_RATE);
}

#[test]
fn splitting_time_does_not_change_the_music() {
    // Ten ticks at once or one by one: same events, same place.
    let mut whole = Sequencer::new();
    let mut sliced = Sequencer::new();
    let mut a = Vec::new();
    let mut b = Vec::new();
    for _ in 0..40 {
        whole.advance(TICK * 10, &mut a);
        for _ in 0..10 {
            sliced.advance(TICK, &mut b);
        }
    }
    assert_eq!(a, b);
    assert_eq!(whole.position(), sliced.position());
}

#[test]
fn active_count_counts_what_sounds() {
    let mut seq = Sequencer::new();
    assert_eq!(seq.active_count(), 2);
    seq.set_muted(Instrument::Bass, true, &mut Vec::new());
    assert_eq!(seq.active_count(), 1);
    assert!(seq.is_muted(Instrument::Bass));
    let copy = seq.clone();
    assert_eq!(copy.position(), seq.position());
}

#[test]
fn what_a_section_leaves_out_stays_out_until_the_next() {
    let mut seq = Sequencer::new();
    run(&mut seq, 0.1);
    assert_eq!(seq.position().section, 0);
    assert!(!song()[0].arranged[Instrument::Drums.index()]);
    seq.set_muted(Instrument::Drums, false, &mut Vec::new());
    // Up to the announcement of the next section, not one drum.
    let phrase = bar_secs(song()[0].motif) * BARS_PER_SECTION as f32;
    let events = run(&mut seq, phrase);
    let next = events
        .iter()
        .position(|e| matches!(e, Event::Section { .. }))
        .expect("the next section is announced");
    assert!(notes_for(&events[..next], Instrument::Drums).is_empty());
    // And the section that arranges them plays them.
    assert!(song()[1].arranged[Instrument::Drums.index()]);
    assert!(!notes_for(&events[next..], Instrument::Drums).is_empty());
}
