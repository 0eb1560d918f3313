//! The integer side of the simulated-annealing optimizer: its deterministic
//! random generator, the neighbour move it proposes at each step, and the
//! voice-leading part of its cost.

use vstd::prelude::*;

use crate::chord::{Chord, ChordQuality, notes_spec, voice_leading_spec};
use crate::progression::ChordProgression;

verus! {

/// One xorshift step (shifts 13, 7, 17).
pub open spec fn xorshift_spec(x: u64) -> u64 {
    let a = x ^ (x << 13u64);
    let b = a ^ (a >> 7u64);
    b ^ (b << 17u64)
}

proof fn lemma_xorshift_nonzero(x: u64)
    requires
        x != 0,
    ensures
        xorshift_spec(x) != 0,
{
    let a = x ^ (x << 13u64);
    assert(x != 0 ==> (x ^ (x << 13u64)) != 0) by (bit_vector);
    let b = a ^ (a >> 7u64);
    assert(a != 0 ==> (a ^ (a >> 7u64)) != 0) by (bit_vector);
    assert(b != 0 ==> (b ^ (b << 17u64)) != 0) by (bit_vector);
}

/// Simple deterministic PRNG (xorshift); its state is never zero.
pub struct SimpleRng {
    state: u64,
}

impl View for SimpleRng {
    type V = u64;

    closed spec fn view(&self) -> u64 {
        self.state
    }
}

impl SimpleRng {
    #[verifier::type_invariant]
    spec fn state_nonzero(self) -> bool {
        self.state != 0
    }

    /// A generator seeded with `seed` (a zero seed is replaced by one).
    pub fn new(seed: u64) -> (r: Self)
        ensures
            r@ == (if seed == 0 {
                1u64
            } else {
                seed
            }),
            r@ != 0,
    {
        SimpleRng {
            state: if seed == 0 {
                1
            } else {
                seed
            },
        }
    }

    /// Advance the state by one xorshift step and return it.
    pub fn next_u64(&mut self) -> (r: u64)
        ensures
            r == xorshift_spec(old(self)@),
            final(self)@ == r,
            r != 0,
    {
        proof {
            use_type_invariant(&*self);
            lemma_xorshift_nonzero(self.state);
        }
        let mut x = self.state;
        x = x ^ (x << 13u64);
        x = x ^ (x >> 7u64);
        x = x ^ (x << 17u64);
        self.state = x;
        x
    }

    /// A draw below `n`: the next state modulo `n`.
    pub fn next_u32(&mut self, n: u32) -> (r: u32)
        requires
            n > 0,
        ensures
            r == xorshift_spec(old(self)@) % (n as u64),
            r < n,
            final(self)@ == xorshift_spec(old(self)@),
    {
        (self.next_u64() % n as u64) as u32
    }

    /// A draw below `n`: the next state modulo `n`.
    pub fn next_usize(&mut self, n: usize) -> (r: usize)
        requires
            n > 0,
        ensures
            r == xorshift_spec(old(self)@) % (n as u64),
            r < n,
            final(self)@ == xorshift_spec(old(self)@),
    {
        (self.next_u64() % n as u64) as usize
    }
}

/// The qualities a neighbour move may give a chord.
pub open spec fn move_quality(i: int) -> ChordQuality {
    if i == 0 {
        ChordQuality::Major
    } else if i == 1 {
        ChordQuality::Minor
    } else if i == 2 {
        ChordQuality::Dominant7
    } else if i == 3 {
        ChordQuality::Major7
    } else if i == 4 {
        ChordQuality::Minor7
    } else {
        ChordQuality::HalfDim7
    }
}

/// `v` limited to the range 1..=8.
pub open spec fn clamp_beats(v: int) -> int {
    if v < 1 {
        1
    } else if v > 8 {
        8
    } else {
        v
    }
}

/// The neighbour of `cs` proposed from generator state `s`, with the state after
/// the draws: a chord is picked, then one of four moves is made on it (new root,
/// new quality, swap with another chord, or a duration change of -2..=2 beats,
/// kept within 1..=8).
pub open spec fn neighbor_spec(s: u64, cs: Seq<Chord>) -> (u64, Seq<Chord>) {
    let s1 = xorshift_spec(s);
    let idx = (s1 % (cs.len() as u64)) as int;
    let s2 = xorshift_spec(s1);
    let action = s2 % 4;
    let s3 = xorshift_spec(s2);
    let c = cs[idx];
    if action == 0 {
        (s3, cs.update(idx, Chord { root: (s3 % 12) as u8, ..c }))
    } else if action == 1 {
        (s3, cs.update(idx, Chord { quality: move_quality((s3 % 6) as int), ..c }))
    } else if action == 2 {
        if cs.len() > 1 {
            let j = (s3 % (cs.len() as u64)) as int;
            (s3, cs.update(idx, cs[j]).update(j, c))
        } else {
            (s2, cs)
        }
    } else {
        (
            s3,
            cs.update(
                idx,
                Chord {
                    duration_beats: clamp_beats(c.duration_beats + (s3 % 5) - 2) as u32,
                    ..c
                },
            ),
        )
    }
}

/// Propose a neighbour of `prog` for the annealer: the chords after one random
/// move, drawn from `rng`.
pub fn propose_neighbor(rng: &mut SimpleRng, prog: &ChordProgression) -> (r: ChordProgression)
    requires
        prog.chords@.len() > 0,
    ensures
        r.key == prog.key,
        (final(rng)@, r.chords@) == neighbor_spec(old(rng)@, prog.chords@),
        r.chords@.len() == prog.chords@.len(),
{
    let mut chords = prog.chords.clone();
    assert(chords@ =~= prog.chords@);
    let len = chords.len();
    let idx = rng.next_usize(len);
    let action = rng.next_u32(4);
    let c = chords[idx];
    if action == 0 {
        let root = rng.next_u32(12) as u8;
        chords.set(idx, Chord { root, quality: c.quality, duration_beats: c.duration_beats });
    } else if action == 1 {
        let qi = rng.next_usize(6);
        let quality = if qi == 0 {
            ChordQuality::Major
        } else if qi == 1 {
            ChordQuality::Minor
        } else if qi == 2 {
            ChordQuality::Dominant7
        } else if qi == 3 {
            ChordQuality::Major7
        } else if qi == 4 {
            ChordQuality::Minor7
        } else {
            ChordQuality::HalfDim7
        };
        chords.set(idx, Chord { root: c.root, quality, duration_beats: c.duration_beats });
    } else if action == 2 {
        if len > 1 {
            let j = rng.next_usize(len);
            let other = chords[j];
            chords.set(idx, other);
            chords.set(j, c);
        }
    } else {
        let delta = rng.next_u32(5) as i64 - 2;
        let v = c.duration_beats as i64 + delta;
        let d: u32 = if v < 1 {
            1
        } else if v > 8 {
            8
        } else {
            v as u32
        };
        chords.set(idx, Chord { root: c.root, quality: c.quality, duration_beats: d });
    }
    ChordProgression { chords, key: prog.key }
}

/// Sum, over consecutive chord pairs, of how far their voice-leading distance
/// exceeds `max`.
pub open spec fn voice_leading_excess_spec(cs: Seq<Chord>, max: u32) -> int
    decreases cs.len(),
{
    if cs.len() < 2 {
        0
    } else {
        let a = cs[cs.len() - 2];
        let b = cs.last();
        let d = voice_leading_spec(notes_spec(a.root, a.quality), notes_spec(b.root, b.quality));
        voice_leading_excess_spec(cs.drop_last(), max) + if d > max {
            d - max
        } else {
            0
        }
    }
}

/// The voice-leading part of the annealer's cost (before its weight is applied):
/// how far consecutive chords exceed the allowed voice-leading distance, summed.
pub fn voice_leading_excess(prog: &ChordProgression, max: u32) -> (r: u128)
    ensures
        r == voice_leading_excess_spec(prog.chords@, max),
{
    let n = prog.chords.len();
    if n < 2 {
        return 0;
    }
    let mut total: u128 = 0;
    let mut i: usize = 1;
    while i < n
        invariant
            n == prog.chords@.len(),
            1 <= i <= n,
            total == voice_leading_excess_spec(prog.chords@.take(i as int), max),
            total <= 24 * i,
        decreases n - i,
    {
        let d = prog.chords[i - 1].voice_leading_distance(&prog.chords[i]);
        proof {
            let t = prog.chords@.take(i + 1);
            assert(t.drop_last() =~= prog.chords@.take(i as int));
            assert(t[t.len() - 2] == prog.chords@[i - 1]);
            assert(t.last() == prog.chords@[i as int]);
            crate::chord::lemma_voice_leading_at_most(prog.chords@[i - 1], prog.chords@[i as int]);
        }
        if d > max {
            total = total + (d - max) as u128;
        }
        i = i + 1;
    }
    assert(prog.chords@.take(n as int) =~= prog.chords@);
    total
}

/// One of the qualities a neighbour move may choose.
pub open spec fn is_move_quality(q: ChordQuality) -> bool {
    q == ChordQuality::Major || q == ChordQuality::Minor || q == ChordQuality::Dominant7 || q
        == ChordQuality::Major7 || q == ChordQuality::Minor7 || q == ChordQuality::HalfDim7
}

/// `new` differs from `old` by one move: a new root (a pitch class), a new
/// quality among the six, or a duration within 1..=8 beats that moved by at
/// most two beats when the old one was already in that range.
pub open spec fn one_field_move(old: Chord, new: Chord) -> bool {
    ||| new.quality == old.quality && new.duration_beats == old.duration_beats && new.root < 12
    ||| new.root == old.root && new.duration_beats == old.duration_beats && is_move_quality(
        new.quality,
    )
    ||| new.root == old.root && new.quality == old.quality && 1 <= new.duration_beats <= 8 && (1
        <= old.duration_beats <= 8 ==> -2 <= new.duration_beats - old.duration_beats <= 2)
}

/// Every position of `cs` other than `a` and `b` holds the same chord in `r`.
pub open spec fn unchanged_outside(cs: Seq<Chord>, r: Seq<Chord>, a: int, b: int) -> bool {
    forall|k: int| 0 <= k < cs.len() && k != a && k != b ==> #[trigger] r[k] == cs[k]
}

/// A neighbour keeps the number of chords and touches at most two positions;
/// every chord in it is the old one at its place, a one-field change of it, or
/// a chord moved from elsewhere in the progression (a swap).
pub proof fn lemma_neighbor_is_small_move(s: u64, cs: Seq<Chord>)
    requires
        0 < cs.len() <= usize::MAX,
    ensures
        ({
            let r = neighbor_spec(s, cs).1;
            &&& r.len() == cs.len()
            &&& exists|a: int, b: int|
                0 <= a < cs.len() && 0 <= b < cs.len() && #[trigger] unchanged_outside(
                    cs,
                    r,
                    a,
                    b,
                )
            &&& forall|k: int|
                0 <= k < cs.len() ==> #[trigger] r[k] == cs[k] || one_field_move(cs[k], r[k])
                    || cs.contains(r[k])
        }),
{
    let s1 = xorshift_spec(s);
    let len = cs.len() as u64;
    let idx = (s1 % len) as int;
    let s2 = xorshift_spec(s1);
    let s3 = xorshift_spec(s2);
    let r = neighbor_spec(s, cs).1;
    let c = cs[idx];
    let swap = s2 % 4 == 2 && cs.len() > 1;
    let j = if swap {
        (s3 % len) as int
    } else {
        idx
    };
    assert(0 <= idx < cs.len());
    assert(0 <= j < cs.len());
    if s2 % 4 == 0 {
        assert(r == cs.update(idx, Chord { root: (s3 % 12) as u8, ..c }));
    } else if s2 % 4 == 1 {
        assert(r == cs.update(idx, Chord { quality: move_quality((s3 % 6) as int), ..c }));
    } else if s2 % 4 == 2 {
        if swap {
            assert(r == cs.update(idx, cs[j]).update(j, c));
        } else {
            assert(r == cs);
        }
    } else {
        assert(r == cs.update(
            idx,
            Chord { duration_beats: clamp_beats(c.duration_beats + (s3 % 5) - 2) as u32, ..c },
        ));
    }
    assert forall|k: int| 0 <= k < cs.len() && k != idx && k != j implies #[trigger] r[k] == cs[k] by {
    }
    assert(unchanged_outside(cs, r, idx, j));
    assert forall|k: int| 0 <= k < cs.len() implies #[trigger] r[k] == cs[k] || one_field_move(
        cs[k],
        r[k],
    ) || cs.contains(r[k]) by {
        if swap && (k == idx || k == j) {
            if k == j {
                assert(r[k] == cs[idx]);
            } else {
                assert(r[k] == cs[j]);
            }
        }
    }
}

/// Voice-leading distance from chord `a` to chord `b`.
pub open spec fn pair_distance(a: Chord, b: Chord) -> int {
    voice_leading_spec(notes_spec(a.root, a.quality), notes_spec(b.root, b.quality))
}

/// Number of consecutive chord pairs whose voice-leading distance is above `m`.
pub open spec fn pairs_above(cs: Seq<Chord>, m: int) -> nat
    decreases cs.len(),
{
    if cs.len() < 2 {
        0
    } else {
        pairs_above(cs.drop_last(), m) + if pair_distance(cs[cs.len() - 2], cs.last()) > m {
            1nat
        } else {
            0nat
        }
    }
}

/// Sum of the voice-leading distances of all consecutive chord pairs.
pub open spec fn total_distance(cs: Seq<Chord>) -> int
    decreases cs.len(),
{
    if cs.len() < 2 {
        0
    } else {
        total_distance(cs.drop_last()) + pair_distance(cs[cs.len() - 2], cs.last())
    }
}

/// Raising the allowance by one lowers the excess by exactly the number of
/// pairs still above the old allowance: each pair counts only what it goes
/// over the allowance.
pub proof fn lemma_excess_step(cs: Seq<Chord>, m: u32)
    requires
        m < u32::MAX,
    ensures
        voice_leading_excess_spec(cs, m) == voice_leading_excess_spec(cs, (m + 1) as u32)
            + pairs_above(cs, m as int),
    decreases cs.len(),
{
    if cs.len() >= 2 {
        lemma_excess_step(cs.drop_last(), m);
    }
}

/// With no allowance the excess is the total voice-leading distance, and an
/// allowance of 24 or more (the largest distance of two chords) leaves none.
pub proof fn lemma_excess_bounds(cs: Seq<Chord>, m: u32)
    ensures
        voice_leading_excess_spec(cs, 0) == total_distance(cs),
        m >= 24 ==> voice_leading_excess_spec(cs, m) == 0,
    decreases cs.len(),
{
    if cs.len() >= 2 {
        lemma_excess_bounds(cs.drop_last(), m);
        crate::chord::lemma_voice_leading_at_most(cs[cs.len() - 2], cs.last());
    }
}

} // verus!
