//! Integer structure of the chord-transition graph of a progression: the
//! voice-leading distance behind each transition edge and the transition counts.

use vstd::prelude::*;

use crate::chord::{Chord, notes_spec, voice_leading_spec};
use crate::error::ComposeError;
use crate::progression::ChordProgression;

verus! {

/// Voice-leading distance from chord `a` to chord `b`, at least 1; the edge
/// between consecutive chords has weight one over this.
pub open spec fn transition_distance(a: Chord, b: Chord) -> int {
    let d = voice_leading_spec(notes_spec(a.root, a.quality), notes_spec(b.root, b.quality));
    if d < 1 {
        1
    } else {
        d
    }
}

/// Transition count from chord `i` to chord `j`: only the step to the next
/// chord counts, weighted by 12 over its distance (closer transitions weigh more).
pub open spec fn transition_count(cs: Seq<Chord>, i: int, j: int) -> int {
    if j == i + 1 && j < cs.len() {
        12int / transition_distance(cs[i], cs[j])
    } else {
        0
    }
}

/// The distance behind each transition edge `i -> i + 1` of the progression's
/// graph, or `InsufficientChords` when there are fewer than two chords.
pub fn transition_distances(prog: &ChordProgression) -> (r: Result<Vec<u32>, ComposeError>)
    ensures
        prog.chords@.len() < 2 ==> r matches Err(ComposeError::InsufficientChords),
        prog.chords@.len() >= 2 ==> (r matches Ok(d) && d@.len() == prog.chords@.len() - 1
            && forall|i: int|
            0 <= i < d@.len() ==> #[trigger] d@[i] == transition_distance(
                prog.chords@[i],
                prog.chords@[i + 1],
            )),
{
    let n = prog.chords.len();
    if n < 2 {
        return Err(ComposeError::InsufficientChords);
    }
    let mut d: Vec<u32> = Vec::new();
    let mut i: usize = 0;
    while i + 1 < n
        invariant
            n == prog.chords@.len(),
            n >= 2,
            i + 1 <= n,
            d@.len() == i,
            forall|k: int|
                0 <= k < i ==> #[trigger] d@[k] == transition_distance(
                    prog.chords@[k],
                    prog.chords@[k + 1],
                ),
        decreases n - i,
    {
        let v = prog.chords[i].voice_leading_distance(&prog.chords[i + 1]);
        let w = if v < 1 {
            1
        } else {
            v
        };
        d.push(w);
        i = i + 1;
    }
    Ok(d)
}

/// Transition counts between the chords of the progression (row `i`, column
/// `j`), the basis of its row-stochastic transition matrix; `InsufficientChords`
/// when there are fewer than two chords.
pub fn transition_counts(prog: &ChordProgression) -> (r: Result<Vec<Vec<usize>>, ComposeError>)
    ensures
        prog.chords@.len() < 2 ==> r matches Err(ComposeError::InsufficientChords),
        prog.chords@.len() >= 2 ==> (r matches Ok(m) && m@.len() == prog.chords@.len() && (
        forall|i: int|
            0 <= i < m@.len() ==> (#[trigger] m@[i])@.len() == prog.chords@.len() && forall|
                j: int,
            |
                0 <= j < prog.chords@.len() ==> #[trigger] m@[i]@[j] == transition_count(
                    prog.chords@,
                    i,
                    j,
                ))),
{
    let dists = transition_distances(prog)?;
    let n = prog.chords.len();
    let mut m: Vec<Vec<usize>> = Vec::new();
    let mut i: usize = 0;
    while i < n
        invariant
            n == prog.chords@.len(),
            n >= 2,
            dists@.len() == n - 1,
            forall|k: int|
                0 <= k < dists@.len() ==> #[trigger] dists@[k] == transition_distance(
                    prog.chords@[k],
                    prog.chords@[k + 1],
                ),
            i <= n,
            m@.len() == i,
            forall|a: int|
                0 <= a < i ==> (#[trigger] m@[a])@.len() == n && forall|b: int|
                    0 <= b < n ==> #[trigger] m@[a]@[b] == transition_count(prog.chords@, a, b),
        decreases n - i,
    {
        let mut row: Vec<usize> = Vec::new();
        let mut j: usize = 0;
        while j < n
            invariant
                n == prog.chords@.len(),
                dists@.len() == n - 1,
                forall|k: int|
                    0 <= k < dists@.len() ==> #[trigger] dists@[k] == transition_distance(
                        prog.chords@[k],
                        prog.chords@[k + 1],
                    ),
                i < n,
                j <= n,
                row@.len() == j,
                forall|b: int|
                    0 <= b < j ==> #[trigger] row@[b] == transition_count(prog.chords@, i as int, b),
            decreases n - j,
        {
            if j == i + 1 {
                let d = dists[i];
                row.push((12 / d) as usize);
            } else {
                row.push(0);
            }
            j = j + 1;
        }
        m.push(row);
        i = i + 1;
    }
    Ok(m)
}

} // verus!
