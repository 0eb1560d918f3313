# conservation-composer

Music from graph spectra and chord grammars. The eigenvalues of a graph
Laplacian become pitches, the conservation ratio CR = λ₂/λₙ picks the style
(consonant, jazz or atonal), and chord progressions are composed from style
templates and refined by simulated annealing.

Layout:

- `src/` — the verified library: chords (parsing, naming, pitch
  classes, voice leading), keys and progressions (scales, transposition,
  pitch-class statistics, key detection), the annealer's generator and
  neighbour moves, the style templates, the integer structure of transition
  graphs, weighted graphs with their Laplacian, and the pitch/style rules of
  the spectral score. Graph edge weights are fixed-point integers in
  thousandths (`WEIGHT_UNIT` = 1.0) and chord durations are whole beats.
- `app/` — the floating-point layer built on the library: Jacobi and power
  iteration eigen solvers, spectral measures, entropy, annealing energy and
  acceptance, score generation, and serde-capable copies of the data types.
- `tests/` — tests of the library.
