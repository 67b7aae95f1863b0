# Keet

A terminal audio player whose logic is verified with Verus.

- `src/` is the library: playlists and their files, tags and lyrics, the state of
  the player and of its interface, the run of the decoder, the audio callback, the
  dialogue with mpv, and the texts on the screen. Contracts say what each function
  gives for every input; properties that span functions stand as public proof
  functions whose names begin with `law_`.
- `tests/` runs the library on concrete values.
- `app/` is the program: devices, files, threads, the terminal, and what is
  computed in floating point (filters, resampling, fades, levels).

Samples and other floating-point numbers pass through the library as their bit
patterns; positions in a track are exact fractions of sample counts and rates.
Paths are texts: a file name that is not UTF-8 cannot be held. They are described
exactly where every system reads them alike: without backslashes, a colon in second
place, or two slashes in front. Elsewhere contracts name the readings that a system may
choose from.
