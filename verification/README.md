# game_prototypes

Small game prototypes behind one menu. The first, Leitmotif, is a journey
home whose rules are set by its music.

The rules are a verified library; the frontend is a thin shell around it.

- `src/shell.rs`: the menu's state, which prototype it points at.
- `src/leitmotif/song.rs`: the score and the sequencer, on an integer clock
  of 277200 units a second. `Sequencer::advance` is proved equal to a model
  of walking the score, and the laws beside it (splitting time changes
  nothing, sections last one phrase, the song loops, a skip lands on the next
  bar, a hushed layer is silent, every note is in the bake lists) are proved
  over that model.
- `src/leitmotif/sim.rs`: the decisions of the game: phase, pause, hearts,
  the fermata, the cues of a frame, and which lane a wall or a note is in.
- `src/leitmotif/mix.rs`: which baked voice, at which gain, each cue plays.
- `src/leitmotif/synth.rs`: WAV framing of the synthesised samples.
- `app/`: the macroquad binary: input, the floating-point world, synthesis,
  drawing and sound.

The tests under `tests/` exercise the library from outside, on concrete
values.
