//! Composition styles and the initial progressions that the optimizer starts from.

use vstd::prelude::*;

use crate::chord::{Chord, ChordQuality};
use crate::error::ComposeError;
use crate::progression::{ChordProgression, KeySignature, scale_fits, scale_spec};

verus! {

/// Composition style.
#[derive(Debug, Clone, Copy, PartialEq, Eq, Structural)]
pub enum ComposeStyle {
    Jazz,
    Baroque,
    Free,
}

/// Chords per bar: two chords of two beats each in 4/4.
pub const CHORDS_PER_BAR: u32 = 2;

/// Length of an initial progression chord, in beats.
pub const INITIAL_CHORD_BEATS: u32 = 2;

/// Number of chords a composition of `bars` bars has, or `InsufficientChords`
/// when that is fewer than two (a transition needs two chords).
pub fn initial_chord_count(bars: u32) -> (r: Result<usize, ComposeError>)
    requires
        bars * CHORDS_PER_BAR <= u32::MAX,
    ensures
        bars * CHORDS_PER_BAR < 2 ==> r matches Err(ComposeError::InsufficientChords),
        bars * CHORDS_PER_BAR >= 2 ==> r == Ok::<usize, ComposeError>((bars * CHORDS_PER_BAR) as usize),
{
    let total_chords = (bars * CHORDS_PER_BAR) as usize;
    if total_chords < 2 {
        return Err(ComposeError::InsufficientChords);
    }
    Ok(total_chords)
}

/// The jazz cycle: ii-V-I, ii-bII7-I (tritone substitution), vi-ii-V-I, as
/// (semitones above the tonic, quality).
pub open spec fn jazz_step(k: int) -> (u8, ChordQuality) {
    if k == 0 {
        (2, ChordQuality::Minor7)
    } else if k == 1 {
        (7, ChordQuality::Dominant7)
    } else if k == 2 {
        (0, ChordQuality::Major7)
    } else if k == 3 {
        (2, ChordQuality::Minor7)
    } else if k == 4 {
        (1, ChordQuality::Dominant7)
    } else if k == 5 {
        (0, ChordQuality::Major7)
    } else if k == 6 {
        (9, ChordQuality::Minor7)
    } else if k == 7 {
        (2, ChordQuality::Minor7)
    } else if k == 8 {
        (7, ChordQuality::Dominant7)
    } else {
        (0, ChordQuality::Major7)
    }
}

/// The baroque cycle: I-IV-V-I, I-vi-IV-I, I-ii-V-I, as (semitones above the
/// tonic, quality).
pub open spec fn baroque_step(k: int) -> (u8, ChordQuality) {
    if k == 1 || k == 6 {
        (5, ChordQuality::Major)
    } else if k == 2 || k == 10 {
        (7, ChordQuality::Major)
    } else if k == 5 {
        (9, ChordQuality::Minor)
    } else if k == 9 {
        (2, ChordQuality::Minor)
    } else {
        (0, ChordQuality::Major)
    }
}

/// The `k`-th chord of a cycle of templates in `key`: the step's offset added to
/// the tonic, two beats long.
pub open spec fn cycle_chord(key: KeySignature, step: (u8, ChordQuality)) -> Chord {
    Chord {
        root: ((key.root + step.0) % 12) as u8,
        quality: step.1,
        duration_beats: INITIAL_CHORD_BEATS,
    }
}

fn jazz_step_exec(k: usize) -> (r: (u8, ChordQuality))
    requires
        k < 10,
    ensures
        r == jazz_step(k as int),
{
    if k == 0 {
        (2, ChordQuality::Minor7)
    } else if k == 1 {
        (7, ChordQuality::Dominant7)
    } else if k == 2 {
        (0, ChordQuality::Major7)
    } else if k == 3 {
        (2, ChordQuality::Minor7)
    } else if k == 4 {
        (1, ChordQuality::Dominant7)
    } else if k == 5 {
        (0, ChordQuality::Major7)
    } else if k == 6 {
        (9, ChordQuality::Minor7)
    } else if k == 7 {
        (2, ChordQuality::Minor7)
    } else if k == 8 {
        (7, ChordQuality::Dominant7)
    } else {
        (0, ChordQuality::Major7)
    }
}

fn baroque_step_exec(k: usize) -> (r: (u8, ChordQuality))
    requires
        k < 12,
    ensures
        r == baroque_step(k as int),
{
    if k == 1 || k == 6 {
        (5, ChordQuality::Major)
    } else if k == 2 || k == 10 {
        (7, ChordQuality::Major)
    } else if k == 5 {
        (9, ChordQuality::Minor)
    } else if k == 9 {
        (2, ChordQuality::Minor)
    } else {
        (0, ChordQuality::Major)
    }
}

fn chord_in_key(key: KeySignature, step: (u8, ChordQuality)) -> (r: Chord)
    requires
        step.0 < 12,
    ensures
        r == cycle_chord(key, step),
{
    let root: u8 = ((key.root as u16 + step.0 as u16) % 12) as u8;
    Chord::new(root, step.1, INITIAL_CHORD_BEATS)
}

/// Jazz: `n_chords` chords following the ii-V-I / tritone-substitution /
/// vi-ii-V-I templates one after another, repeating. The key's scale must be
/// computable (its root plus every step of the mode fits in `u8`).
pub fn jazz_initial(key: KeySignature, n_chords: usize) -> (r: ChordProgression)
    requires
        scale_fits(key),
    ensures
        r.key == key,
        r.chords@.len() == n_chords,
        forall|k: int|
            0 <= k < n_chords ==> #[trigger] r.chords@[k] == cycle_chord(key, jazz_step(k % 10)),
{
    let mut prog = ChordProgression::new(key);
    let mut i: usize = 0;
    while i < n_chords
        invariant
            i <= n_chords,
            prog.key == key,
            prog.chords@.len() == i,
            forall|k: int|
                0 <= k < i ==> #[trigger] prog.chords@[k] == cycle_chord(key, jazz_step(k % 10)),
        decreases n_chords - i,
    {
        let step = jazz_step_exec(i % 10);
        prog.push(chord_in_key(key, step));
        i = i + 1;
    }
    prog
}

/// Baroque: `n_chords` chords following the I-IV-V-I / I-vi-IV-I / I-ii-V-I
/// templates one after another, repeating.
pub fn baroque_initial(key: KeySignature, n_chords: usize) -> (r: ChordProgression)
    ensures
        r.key == key,
        r.chords@.len() == n_chords,
        forall|k: int|
            0 <= k < n_chords ==> #[trigger] r.chords@[k] == cycle_chord(key, baroque_step(k % 12)),
{
    let mut prog = ChordProgression::new(key);
    let mut i: usize = 0;
    while i < n_chords
        invariant
            i <= n_chords,
            prog.key == key,
            prog.chords@.len() == i,
            forall|k: int|
                0 <= k < i ==> #[trigger] prog.chords@[k] == cycle_chord(key, baroque_step(k % 12)),
        decreases n_chords - i,
    {
        let step = baroque_step_exec(i % 12);
        prog.push(chord_in_key(key, step));
        i = i + 1;
    }
    prog
}

/// Multiplier of the linear congruential generator behind free-style starts.
pub const LCG_MULTIPLIER: u64 = 6364136223846793005;

/// One step of the linear congruential generator (wrapping arithmetic).
pub open spec fn lcg_step(s: u64) -> u64 {
    s.wrapping_mul(LCG_MULTIPLIER).wrapping_add(1)
}

/// `m` steps of the linear congruential generator.
pub open spec fn lcg_iter(s: u64, m: nat) -> u64
    decreases m,
{
    if m == 0 {
        s
    } else {
        lcg_step(lcg_iter(s, (m - 1) as nat))
    }
}

/// Seed of the free-style start, from the key's root and the length.
pub open spec fn free_seed(key: KeySignature, n_chords: usize) -> int {
    key.root * 31 + n_chords * 17 + 7
}

/// The qualities a free-style chord may have.
pub open spec fn free_quality(i: int) -> ChordQuality {
    if i == 0 {
        ChordQuality::Major7
    } else if i == 1 {
        ChordQuality::Minor7
    } else if i == 2 {
        ChordQuality::Dominant7
    } else {
        ChordQuality::HalfDim7
    }
}

/// The `k`-th free-style chord: two generator draws pick a scale degree of the
/// key and a seventh-chord quality.
pub open spec fn free_chord(key: KeySignature, seed: u64, k: int) -> Chord {
    let a = lcg_iter(seed, (2 * k + 1) as nat);
    let b = lcg_iter(seed, (2 * k + 2) as nat);
    let scale = scale_spec(key);
    Chord {
        root: scale[((a as usize) % 7) as int] % 12,
        quality: free_quality(((b as usize) % 4) as int),
        duration_beats: INITIAL_CHORD_BEATS,
    }
}

/// Free: `n_chords` diatonic seventh chords drawn by a generator seeded from the
/// key and the length.
pub fn free_initial(key: KeySignature, n_chords: usize) -> (r: ChordProgression)
    requires
        scale_fits(key),
        free_seed(key, n_chords) <= u64::MAX,
    ensures
        r.key == key,
        r.chords@.len() == n_chords,
        forall|k: int|
            0 <= k < n_chords ==> #[trigger] r.chords@[k] == free_chord(
                key,
                free_seed(key, n_chords) as u64,
                k,
            ),
{
    let mut prog = ChordProgression::new(key);
    let scale = key.scale();
    let mut seed: u64 = (key.root as u64) * 31 + (n_chords as u64) * 17 + 7;
    let ghost seed0 = seed;
    let mut i: usize = 0;
    while i < n_chords
        invariant
            i <= n_chords,
            prog.key == key,
            prog.chords@.len() == i,
            scale@ == scale_spec(key),
            scale@.len() == 7,
            seed0 == free_seed(key, n_chords),
            seed == lcg_iter(seed0, (2 * i) as nat),
            forall|k: int| 0 <= k < i ==> #[trigger] prog.chords@[k] == free_chord(key, seed0, k),
        decreases n_chords - i,
    {
        seed = seed.wrapping_mul(LCG_MULTIPLIER).wrapping_add(1);
        assert(seed == lcg_iter(seed0, (2 * i + 1) as nat));
        let idx = (seed as usize) % scale.len();
        seed = seed.wrapping_mul(LCG_MULTIPLIER).wrapping_add(1);
        assert(seed == lcg_iter(seed0, (2 * i + 2) as nat));
        let qi = (seed as usize) % 4;
        let quality = if qi == 0 {
            ChordQuality::Major7
        } else if qi == 1 {
            ChordQuality::Minor7
        } else if qi == 2 {
            ChordQuality::Dominant7
        } else {
            ChordQuality::HalfDim7
        };
        prog.push(Chord::new(scale[idx], quality, INITIAL_CHORD_BEATS));
        i = i + 1;
    }
    prog
}

/// The initial progression of a style.
pub fn generate_initial(style: ComposeStyle, key: KeySignature, n_chords: usize) -> (r:
    ChordProgression)
    requires
        style == ComposeStyle::Jazz ==> scale_fits(key),
        style == ComposeStyle::Free ==> scale_fits(key) && free_seed(key, n_chords) <= u64::MAX,
    ensures
        r.key == key,
        r.chords@.len() == n_chords,
        style == ComposeStyle::Jazz ==> forall|k: int|
            0 <= k < n_chords ==> #[trigger] r.chords@[k] == cycle_chord(key, jazz_step(k % 10)),
        style == ComposeStyle::Baroque ==> forall|k: int|
            0 <= k < n_chords ==> #[trigger] r.chords@[k] == cycle_chord(
                key,
                baroque_step(k % 12),
            ),
        style == ComposeStyle::Free ==> forall|k: int|
            0 <= k < n_chords ==> #[trigger] r.chords@[k] == free_chord(
                key,
                free_seed(key, n_chords) as u64,
                k,
            ),
{
    match style {
        ComposeStyle::Jazz => jazz_initial(key, n_chords),
        ComposeStyle::Baroque => baroque_initial(key, n_chords),
        ComposeStyle::Free => free_initial(key, n_chords),
    }
}

/// The pitch class `k` semitones above the key's tonic.
pub open spec fn degree_root(key: KeySignature, k: int) -> u8 {
    ((key.root + k) % 12) as u8
}

/// The baroque start cycles through three four-chord templates, I-IV-V-I,
/// I-vi-IV-I and I-ii-V-I: every template opens and closes on the tonic major
/// triad, IV and V are major triads a fourth (5) and a fifth (7) above the
/// tonic, vi and ii are minor triads a sixth (9) and a second (2) above it, and
/// every chord lasts two beats.
pub proof fn lemma_baroque_templates(key: KeySignature, k: int)
    requires
        0 <= k,
    ensures
        ({
            let c = cycle_chord(key, baroque_step(k % 12));
            &&& c.duration_beats == 2
            &&& (k % 4 == 0 || k % 4 == 3) ==> c.root == degree_root(key, 0) && c.quality
                == ChordQuality::Major
            &&& (k % 12 == 1 || k % 12 == 6) ==> c.root == degree_root(key, 5) && c.quality
                == ChordQuality::Major
            &&& (k % 12 == 2 || k % 12 == 10) ==> c.root == degree_root(key, 7) && c.quality
                == ChordQuality::Major
            &&& k % 12 == 5 ==> c.root == degree_root(key, 9) && c.quality == ChordQuality::Minor
            &&& k % 12 == 9 ==> c.root == degree_root(key, 2) && c.quality == ChordQuality::Minor
        }),
{
    assert(k % 4 == (k % 12) % 4);
}

/// The jazz start cycles through ii-V-I, ii-subV-I and vi-ii-V-I: ii is the
/// minor seventh a second (2) above the tonic, V the dominant seventh a fifth
/// (7) above, I the tonic major seventh, vi the minor seventh a sixth (9) above,
/// and the substitute dominant lies a tritone (6) away from V; every chord
/// lasts two beats.
pub proof fn lemma_jazz_templates(key: KeySignature, k: int)
    requires
        0 <= k,
    ensures
        ({
            let c = cycle_chord(key, jazz_step(k % 10));
            let p = k % 10;
            &&& c.duration_beats == 2
            &&& (p == 0 || p == 3 || p == 7) ==> c.root == degree_root(key, 2) && c.quality
                == ChordQuality::Minor7
            &&& (p == 1 || p == 8) ==> c.root == degree_root(key, 7) && c.quality
                == ChordQuality::Dominant7
            &&& (p == 2 || p == 5 || p == 9) ==> c.root == degree_root(key, 0) && c.quality
                == ChordQuality::Major7
            &&& p == 4 ==> c.root == degree_root(key, 7int + 6) && c.quality == ChordQuality::Dominant7
            &&& p == 6 ==> c.root == degree_root(key, 9) && c.quality == ChordQuality::Minor7
        }),
{
    assert((key.root + 13) % 12 == (key.root + 1) % 12);
}

/// Every free-style chord is a seventh chord (major, minor, dominant or
/// half-diminished) built on a note of the key's scale, two beats long.
pub proof fn lemma_free_chords_diatonic(key: KeySignature, seed: u64, k: int)
    requires
        key.root < 12,
    ensures
        ({
            let c = free_chord(key, seed, k);
            &&& scale_spec(key).contains(c.root)
            &&& c.quality == ChordQuality::Major7 || c.quality == ChordQuality::Minor7 || c.quality
                == ChordQuality::Dominant7 || c.quality == ChordQuality::HalfDim7
            &&& c.duration_beats == 2
        }),
{
    let c = free_chord(key, seed, k);
    let a = lcg_iter(seed, (2 * k + 1) as nat);
    let i = ((a as usize) % 7) as int;
    crate::progression::lemma_scale_distinct(key);
    assert(c.root == scale_spec(key)[i]);
}

} // verus!
