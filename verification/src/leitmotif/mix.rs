//! What a cue sounds like.
//!
//! The runtime audio backend sums every playing voice, scaled by its
//! volume, and hands the total to the device with nothing in between to
//! limit it. So the policy that maps a [`Cue`] to a voice and a gain lives
//! here, in the library, where the whole song can be rendered through the
//! same policy and its peak measured. The frontend uses [`voice_for`] and
//! [`all_voices`] verbatim.
//!
//! Coherence is the other job of this file: everything that is not the band
//! is either a bell in the current key or a noise with no pitch to clash.
//!
//! Gains here are peak gains at full velocity, in thousandths. How a
//! velocity becomes loudness, and the master gain over everything, are
//! applied by the frontend's mixing stage.

use vstd::prelude::*;

use crate::leitmotif::sim::{home_note, is_bell, lemma_home_notes, possible_cue, Cue};
use crate::leitmotif::song::{
    chord_before, chords, chords_rising, insert_pitch, pad_plays, pitches, played, rising, Chord, Instrument, Motif, HAT, KICK,
    SNARE,
};

verus! {

/// Peak gain per drum, at full velocity, in thousandths.
pub const KICK_GAIN: u32 = 850;
pub const SNARE_GAIN: u32 = 600;
pub const HAT_GAIN: u32 = 220;

/// Peak gain for the pitched layers, at full velocity, in thousandths.
pub const BASS_GAIN: u32 = 600;
pub const LEAD_GAIN: u32 = 500;
pub const PAD_GAIN: u32 = 550;

/// Gain for the game's own sounds, in thousandths.
pub const HIT_GAIN: u32 = 900;
pub const SHOCK_GAIN: u32 = 700;
pub const WINDUP_GAIN: u32 = 350;
pub const BREATH_GAIN: u32 = 450;
pub const BELL_GAIN: u32 = 500;

/// One baked buffer. The frontend keeps a sound per voice.
#[derive(Clone, Copy, Debug, PartialEq, Eq, Hash)]
pub enum Voice {
    /// A drum, by its MIDI note.
    Drum(u8),
    /// A bass note, by MIDI number.
    Bass(u8),
    /// A lead note, by MIDI number.
    Lead(u8),
    /// A pad chord.
    Pad(Chord),
    /// A bell, by MIDI number: hearts, home, starting over.
    Bell(u8),
    /// Taking a hit, and a stomper's shockwave.
    Thump,
    /// The fermata taking hold.
    Breath,
    /// Stompers winding up.
    Riser,
}

/// The policy: which voice a cue plays, and its peak gain in thousandths.
/// `None` for cues that make no sound of their own: the music marks its own
/// section changes, the fermata letting go is heard as the music coming
/// back, pad notes arrive as chords, and pause and restart are silent.
pub open spec fn voice_of(cue: Cue) -> Option<(Voice, u32)> {
    match cue {
        Cue::Note { instrument, pitch, .. } => match instrument {
            Instrument::Drums => if pitch == KICK {
                Some((Voice::Drum(pitch), KICK_GAIN))
            } else if pitch == SNARE {
                Some((Voice::Drum(pitch), SNARE_GAIN))
            } else if pitch == HAT {
                Some((Voice::Drum(pitch), HAT_GAIN))
            } else {
                None
            },
            Instrument::Bass => Some((Voice::Bass(pitch), BASS_GAIN)),
            Instrument::Lead => Some((Voice::Lead(pitch), LEAD_GAIN)),
            Instrument::Pad => None,
        },
        Cue::Chord(chord) => Some((Voice::Pad(chord), PAD_GAIN)),
        Cue::Hit { .. } => Some((Voice::Thump, HIT_GAIN)),
        Cue::Shock => Some((Voice::Thump, SHOCK_GAIN)),
        Cue::Windup => Some((Voice::Riser, WINDUP_GAIN)),
        Cue::Fermata { held } => if held {
            Some((Voice::Breath, BREATH_GAIN))
        } else {
            None
        },
        Cue::Bell { pitch } => Some((Voice::Bell(pitch), BELL_GAIN)),
        Cue::Section(_) => None,
        Cue::Pause { .. } => None,
        Cue::Restart => None,
    }
}

/// Which voice a cue plays, and its peak gain in thousandths.
pub fn voice_for(cue: Cue) -> (voice: Option<(Voice, u32)>)
    ensures
        voice == voice_of(cue),
{
    match cue {
        Cue::Note { instrument, pitch, .. } => match instrument {
            Instrument::Drums => if pitch == KICK {
                Some((Voice::Drum(pitch), KICK_GAIN))
            } else if pitch == SNARE {
                Some((Voice::Drum(pitch), SNARE_GAIN))
            } else if pitch == HAT {
                Some((Voice::Drum(pitch), HAT_GAIN))
            } else {
                None
            },
            Instrument::Bass => Some((Voice::Bass(pitch), BASS_GAIN)),
            Instrument::Lead => Some((Voice::Lead(pitch), LEAD_GAIN)),
            Instrument::Pad => None,
        },
        Cue::Chord(chord) => Some((Voice::Pad(chord), PAD_GAIN)),
        Cue::Hit { .. } => Some((Voice::Thump, HIT_GAIN)),
        Cue::Shock => Some((Voice::Thump, SHOCK_GAIN)),
        Cue::Windup => Some((Voice::Riser, WINDUP_GAIN)),
        Cue::Fermata { held } => if held {
            Some((Voice::Breath, BREATH_GAIN))
        } else {
            None
        },
        Cue::Bell { pitch } => Some((Voice::Bell(pitch), BELL_GAIN)),
        Cue::Section(_) => None,
        Cue::Pause { .. } => None,
        Cue::Restart => None,
    }
}

/// Whether the frontend bakes a voice up front: every pitch and chord the
/// song plays, every bell the game rings, and the game's own sounds.
pub open spec fn baked(voice: Voice) -> bool {
    match voice {
        Voice::Drum(pitch) => played(Instrument::Drums, pitch),
        Voice::Bass(pitch) => played(Instrument::Bass, pitch),
        Voice::Lead(pitch) => played(Instrument::Lead, pitch),
        Voice::Pad(chord) => pad_plays(chord),
        Voice::Bell(pitch) => is_bell(pitch),
        Voice::Thump | Voice::Breath | Voice::Riser => true,
    }
}

/// Every bell pitch the game can ask for: each motif's home note in three
/// octaves, sorted and deduplicated. Starting over rings the root, a heart
/// back the octave, home the one above that.
pub fn bell_pitches() -> (out: Vec<u8>)
    ensures
        rising(out@),
        forall|x: u8| out@.contains(x) <==> is_bell(x),
{
    let mut out: Vec<u8> = Vec::new();
    let motifs = [Motif::Wander, Motif::Pursuit, Motif::Lullaby];
    let ghost from = seq![Motif::Wander, Motif::Pursuit, Motif::Lullaby];
    let mut m: usize = 0;
    while m < 3
        invariant
            m <= 3,
            motifs@ == from,
            rising(out@),
            forall|x: u8|
                out@.contains(x) <==> (exists|k: int|
                    0 <= k < m && (x == home_note(#[trigger] from[k]) || x == home_note(from[k]) + 12
                        || x == home_note(from[k]) + 24)),
        decreases 3 - m,
    {
        let motif = motifs[m];
        proof {
            lemma_home_notes(motif);
        }
        let root = motif.tonic().root();
        let ghost before = out@;
        insert_pitch(&mut out, root);
        insert_pitch(&mut out, root + 12);
        insert_pitch(&mut out, root + 24);
        proof {
            assert forall|x: u8|
                out@.contains(x) <==> (exists|k: int|
                    0 <= k < m + 1 && (x == home_note(#[trigger] from[k]) || x == home_note(from[k])
                        + 12 || x == home_note(from[k]) + 24)) by {
                if x == root || x == root + 12 || x == root + 24 {
                    assert(from[m as int] == motif);
                }
            }
        }
        m = m + 1;
    }
    proof {
        assert forall|x: u8| out@.contains(x) <==> is_bell(x) by {
            if is_bell(x) {
                let motif = choose|motif: Motif|
                    x == home_note(motif) || x == home_note(motif) + 12 || x == home_note(motif) + 24;
                let k = match motif {
                    Motif::Wander => 0int,
                    Motif::Pursuit => 1,
                    Motif::Lullaby => 2,
                };
                assert(from[k] == motif);
            }
        }
    }
    out
}

/// Where a voice stands in the bake list: the fixed voices, then drums,
/// bass, lead, pads and bells.
pub open spec fn voice_group(v: Voice) -> int {
    match v {
        Voice::Thump => 0,
        Voice::Breath => 1,
        Voice::Riser => 2,
        Voice::Drum(_) => 3,
        Voice::Bass(_) => 4,
        Voice::Lead(_) => 5,
        Voice::Pad(_) => 6,
        Voice::Bell(_) => 7,
    }
}

/// The bake list's order: by group, and within a group by rising pitch, or
/// for pads by [`chord_before`].
pub open spec fn voice_before(a: Voice, b: Voice) -> bool {
    ||| voice_group(a) < voice_group(b)
    ||| match (a, b) {
        (Voice::Drum(x), Voice::Drum(y)) => x < y,
        (Voice::Bass(x), Voice::Bass(y)) => x < y,
        (Voice::Lead(x), Voice::Lead(y)) => x < y,
        (Voice::Pad(x), Voice::Pad(y)) => chord_before(x, y),
        (Voice::Bell(x), Voice::Bell(y)) => x < y,
        _ => false,
    }
}

/// Every voice strictly before every later one: in order, and so no voice
/// twice.
pub open spec fn voices_in_order(s: Seq<Voice>) -> bool {
    forall|i: int, j: int| 0 <= i < j < s.len() ==> voice_before(s[i], s[j])
}

/// Append one voice per pitch, of the kind `kind` picks: drum, bass or
/// lead.
fn push_pitched(out: &mut Vec<Voice>, pitches: &Vec<u8>, kind: Instrument)
    requires
        kind != Instrument::Pad,
        rising(pitches@),
        voices_in_order(old(out)@),
        forall|j: int|
            0 <= j < old(out)@.len() ==> voice_group(#[trigger] old(out)@[j]) < voice_group(
                pitched(kind, 0),
            ),
    ensures
        voices_in_order(final(out)@),
        forall|j: int|
            0 <= j < final(out)@.len() ==> voice_group(#[trigger] final(out)@[j]) <= voice_group(
                pitched(kind, 0),
            ),
        forall|v: Voice|
            #![trigger final(out)@.contains(v)]
            final(out)@.contains(v) <==> (old(out)@.contains(v) || exists|k: int|
                0 <= k < pitches@.len() && v == pitched(kind, #[trigger] pitches@[k])),
{
    let mut i: usize = 0;
    while i < pitches.len()
        invariant
            kind != Instrument::Pad,
            i <= pitches@.len(),
            rising(pitches@),
            out@.len() == old(out)@.len() + i,
            forall|j: int| 0 <= j < old(out)@.len() ==> out@[j] == old(out)@[j],
            forall|k: int|
                0 <= k < i ==> out@[old(out)@.len() + k] == pitched(kind, #[trigger] pitches@[k]),
            voices_in_order(old(out)@),
            forall|j: int|
                0 <= j < old(out)@.len() ==> voice_group(#[trigger] old(out)@[j]) < voice_group(
                    pitched(kind, 0),
                ),
            voices_in_order(out@),
            forall|j: int|
                0 <= j < out@.len() ==> voice_group(#[trigger] out@[j]) <= voice_group(
                    pitched(kind, 0),
                ),
            forall|v: Voice|
                #![trigger out@.contains(v)]
                out@.contains(v) <==> (old(out)@.contains(v) || exists|k: int|
                    0 <= k < i && v == pitched(kind, #[trigger] pitches@[k])),
        decreases pitches@.len() - i,
    {
        let pitch = pitches[i];
        let voice = match kind {
            Instrument::Drums => Voice::Drum(pitch),
            Instrument::Bass => Voice::Bass(pitch),
            _ => Voice::Lead(pitch),
        };
        let ghost before = out@;
        out.push(voice);
        proof {
            assert forall|a: int, b: int| 0 <= a < b < out@.len() implies voice_before(
                out@[a],
                out@[b],
            ) by {
                if b == out@.len() - 1 && a >= old(out)@.len() {
                    let k = a - old(out)@.len();
                    assert(out@[a] == pitched(kind, pitches@[k]));
                    assert(pitches@[k] < pitches@[i as int]);
                } else if b == out@.len() - 1 {
                    assert(out@[a] == old(out)@[a]);
                } else {
                    assert(out@[a] == before[a] && out@[b] == before[b]);
                }
            }
            assert forall|v: Voice| #![trigger out@.contains(v)]
                out@.contains(v) <==> (old(out)@.contains(v) || exists|k: int|
                    0 <= k < i + 1 && v == pitched(kind, #[trigger] pitches@[k])) by {
                if v == voice {
                    assert(out@[out@.len() - 1] == v);
                    assert(v == pitched(kind, pitches@[i as int]));
                }
                if out@.contains(v) {
                    let j = choose|j: int| 0 <= j < out@.len() && out@[j] == v;
                    if j < before.len() {
                        assert(before.contains(v));
                    }
                }
                if before.contains(v) {
                    let j = choose|j: int| 0 <= j < before.len() && before[j] == v;
                    assert(out@[j] == v);
                }
            }
        }
        i = i + 1;
    }
}

/// The voice of a pitched instrument at a pitch.
pub open spec fn pitched(kind: Instrument, pitch: u8) -> Voice {
    match kind {
        Instrument::Drums => Voice::Drum(pitch),
        Instrument::Bass => Voice::Bass(pitch),
        _ => Voice::Lead(pitch),
    }
}

/// Every voice any cue can ask for, so the frontend can bake them all up
/// front. The song says which pitches and chords; the rest is fixed.
pub fn all_voices() -> (voices: Vec<Voice>)
    ensures
        forall|v: Voice| voices@.contains(v) <==> baked(v),
        voices_in_order(voices@),
        voices@.no_duplicates(),
{
    let mut voices: Vec<Voice> = Vec::new();
    voices.push(Voice::Thump);
    voices.push(Voice::Breath);
    voices.push(Voice::Riser);
    let ghost fixed = voices@;
    let drums = pitches(Instrument::Drums);
    push_pitched(&mut voices, &drums, Instrument::Drums);
    let ghost with_drums = voices@;
    let bass = pitches(Instrument::Bass);
    push_pitched(&mut voices, &bass, Instrument::Bass);
    let ghost with_bass = voices@;
    let lead = pitches(Instrument::Lead);
    push_pitched(&mut voices, &lead, Instrument::Lead);
    let ghost with_lead = voices@;
    let pads = chords();
    let mut i: usize = 0;
    while i < pads.len()
        invariant
            i <= pads@.len(),
            chords_rising(pads@),
            voices@.len() == with_lead.len() + i,
            forall|k: int| 0 <= k < i ==> voices@[with_lead.len() + k] == Voice::Pad(#[trigger] pads@[k]),
            forall|j: int| 0 <= j < with_lead.len() ==> voice_group(#[trigger] voices@[j]) <= 5,
            forall|j: int| 0 <= j < voices@.len() ==> voice_group(#[trigger] voices@[j]) <= 6,
            voices_in_order(voices@),
            forall|v: Voice|
                #![trigger voices@.contains(v)]
                voices@.contains(v) <==> (with_lead.contains(v) || exists|k: int|
                    0 <= k < i && v == Voice::Pad(#[trigger] pads@[k])),
        decreases pads@.len() - i,
    {
        let ghost before = voices@;
        let voice = Voice::Pad(pads[i]);
        voices.push(voice);
        proof {
            assert forall|a: int, b: int| 0 <= a < b < voices@.len() implies voice_before(
                voices@[a],
                voices@[b],
            ) by {
                if b == voices@.len() - 1 && a >= with_lead.len() {
                    let k = a - with_lead.len();
                    assert(voices@[a] == Voice::Pad(pads@[k]));
                    assert(chord_before(pads@[k], pads@[i as int]));
                } else if b == voices@.len() - 1 {
                    assert(voices@[a] == before[a]);
                } else {
                    assert(voices@[a] == before[a] && voices@[b] == before[b]);
                }
            }
            assert forall|v: Voice| #![trigger voices@.contains(v)]
                voices@.contains(v) <==> (with_lead.contains(v) || exists|k: int|
                    0 <= k < i + 1 && v == Voice::Pad(#[trigger] pads@[k])) by {
                if v == voice {
                    assert(voices@[voices@.len() - 1] == v);
                }
                if voices@.contains(v) {
                    let j = choose|j: int| 0 <= j < voices@.len() && voices@[j] == v;
                    if j < before.len() {
                        assert(before.contains(v));
                    }
                }
                if before.contains(v) {
                    let j = choose|j: int| 0 <= j < before.len() && before[j] == v;
                    assert(voices@[j] == v);
                }
            }
        }
        i = i + 1;
    }
    let ghost with_pads = voices@;
    let bells = bell_pitches();
    let mut b: usize = 0;
    while b < bells.len()
        invariant
            b <= bells@.len(),
            rising(bells@),
            voices@.len() == with_pads.len() + b,
            forall|k: int| 0 <= k < b ==> voices@[with_pads.len() + k] == Voice::Bell(#[trigger] bells@[k]),
            forall|j: int| 0 <= j < with_pads.len() ==> voice_group(#[trigger] voices@[j]) <= 6,
            voices_in_order(voices@),
            forall|v: Voice|
                #![trigger voices@.contains(v)]
                voices@.contains(v) <==> (with_pads.contains(v) || exists|k: int|
                    0 <= k < b && v == Voice::Bell(#[trigger] bells@[k])),
        decreases bells@.len() - b,
    {
        let ghost before = voices@;
        let voice = Voice::Bell(bells[b]);
        voices.push(voice);
        proof {
            assert forall|x: int, y: int| 0 <= x < y < voices@.len() implies voice_before(
                voices@[x],
                voices@[y],
            ) by {
                if y == voices@.len() - 1 && x >= with_pads.len() {
                    let k = x - with_pads.len();
                    assert(voices@[x] == Voice::Bell(bells@[k]));
                    assert(bells@[k] < bells@[b as int]);
                } else if y == voices@.len() - 1 {
                    assert(voices@[x] == before[x]);
                } else {
                    assert(voices@[x] == before[x] && voices@[y] == before[y]);
                }
            }
            assert forall|v: Voice| #![trigger voices@.contains(v)]
                voices@.contains(v) <==> (with_pads.contains(v) || exists|k: int|
                    0 <= k < b + 1 && v == Voice::Bell(#[trigger] bells@[k])) by {
                if v == voice {
                    assert(voices@[voices@.len() - 1] == v);
                }
                if voices@.contains(v) {
                    let j = choose|j: int| 0 <= j < voices@.len() && voices@[j] == v;
                    if j < before.len() {
                        assert(before.contains(v));
                    }
                }
                if before.contains(v) {
                    let j = choose|j: int| 0 <= j < before.len() && before[j] == v;
                    assert(voices@[j] == v);
                }
            }
        }
        b = b + 1;
    }
    proof {
        assert forall|v: Voice| voices@.contains(v) <==> baked(v) by {
            assert(fixed == seq![Voice::Thump, Voice::Breath, Voice::Riser]);
            let in_fixed = fixed.contains(v);
            if v == Voice::Thump {
                assert(fixed[0] == v);
            }
            if v == Voice::Breath {
                assert(fixed[1] == v);
            }
            if v == Voice::Riser {
                assert(fixed[2] == v);
            }
            match v {
                Voice::Drum(p) => {
                    if played(Instrument::Drums, p) {
                        assert(drums@.contains(p));
                        let k = choose|k: int| 0 <= k < drums@.len() && drums@[k] == p;
                        assert(v == pitched(Instrument::Drums, drums@[k]));
                    }
                },
                Voice::Bass(p) => {
                    if played(Instrument::Bass, p) {
                        assert(bass@.contains(p));
                        let k = choose|k: int| 0 <= k < bass@.len() && bass@[k] == p;
                        assert(v == pitched(Instrument::Bass, bass@[k]));
                    }
                },
                Voice::Lead(p) => {
                    if played(Instrument::Lead, p) {
                        assert(lead@.contains(p));
                        let k = choose|k: int| 0 <= k < lead@.len() && lead@[k] == p;
                        assert(v == pitched(Instrument::Lead, lead@[k]));
                    }
                },
                Voice::Pad(c) => {
                    if pad_plays(c) {
                        assert(pads@.contains(c));
                        let k = choose|k: int| 0 <= k < pads@.len() && pads@[k] == c;
                        assert(v == Voice::Pad(pads@[k]));
                    }
                },
                Voice::Bell(p) => {
                    if is_bell(p) {
                        assert(bells@.contains(p));
                        let k = choose|k: int| 0 <= k < bells@.len() && bells@[k] == p;
                        assert(v == Voice::Bell(bells@[k]));
                    }
                },
                _ => {},
            }
            if voices@.contains(v) {
                if with_pads.contains(v) {
                    if with_lead.contains(v) {
                        if with_bass.contains(v) {
                            if with_drums.contains(v) {
                                if !fixed.contains(v) {
                                    let k = choose|k: int|
                                        0 <= k < drums@.len() && v == pitched(
                                            Instrument::Drums,
                                            #[trigger] drums@[k],
                                        );
                                    assert(drums@.contains(drums@[k]));
                                }
                            } else {
                                let k = choose|k: int|
                                    0 <= k < bass@.len() && v == pitched(
                                        Instrument::Bass,
                                        #[trigger] bass@[k],
                                    );
                                assert(bass@.contains(bass@[k]));
                            }
                        } else {
                            let k = choose|k: int|
                                0 <= k < lead@.len() && v == pitched(
                                    Instrument::Lead,
                                    #[trigger] lead@[k],
                                );
                            assert(lead@.contains(lead@[k]));
                        }
                    } else {
                        let k = choose|k: int| 0 <= k < pads@.len() && v == Voice::Pad(#[trigger] pads@[k]);
                        assert(pads@.contains(pads@[k]));
                    }
                } else {
                    let k = choose|k: int| 0 <= k < bells@.len() && v == Voice::Bell(#[trigger] bells@[k]);
                    assert(bells@.contains(bells@[k]));
                }
            }
        }
    }
    proof {
        assert forall|x: int, y: int| 0 <= x < voices@.len() && 0 <= y < voices@.len() && x != y implies voices@[x]
            != voices@[y] by {
            if x < y {
                assert(voice_before(voices@[x], voices@[y]));
            } else {
                assert(voice_before(voices@[y], voices@[x]));
            }
        }
    }
    voices
}

/// Each of the game's own sounds tells its cue apart: the thump is being
/// caught, by anything, fatal or not, at the hit's gain, or a shockwave;
/// the riser is only stompers winding up; the breath is only the fermata
/// taking hold; a bell is only a bell, at its own pitch.
pub proof fn lemma_voices_tell_cues_apart(cue: Cue)
    ensures
        voice_of(cue) matches Some((Voice::Thump, _)) <==> (cue is Hit || cue is Shock),
        cue is Hit ==> voice_of(cue) == Some((Voice::Thump, HIT_GAIN)),
        voice_of(cue) matches Some((Voice::Riser, _)) <==> cue is Windup,
        voice_of(cue) matches Some((Voice::Breath, _)) <==> cue == (Cue::Fermata { held: true }),
        forall|pitch: u8|
            voice_of(cue) matches Some((Voice::Bell(at), _)) && at == pitch <==> cue == (Cue::Bell {
                pitch,
            }),
{
}

/// Every cue the game can make has its voice baked, at a gain no louder
/// than full scale; the only silent ones are section changes, the fermata
/// letting go, pause and restart.
pub proof fn lemma_every_cue_is_baked(cue: Cue)
    requires
        possible_cue(cue),
    ensures
        voice_of(cue) matches Some((voice, gain)) ==> baked(voice) && 0 < gain <= 1000,
        voice_of(cue) is None <==> (cue is Section || cue matches Cue::Fermata { held: false }
            || cue is Pause || cue is Restart),
{
}

} // verus!
