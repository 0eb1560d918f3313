//! Keys, scales and chord progressions.

use vstd::prelude::*;

use std::collections::HashSet;

use crate::chord::{Chord, notes_spec, lemma_notes_facts, pitch_class_name, pitch_name_spec};

verus! {

/// Major or minor mode.
#[derive(Debug, Clone, Copy, PartialEq, Eq, Structural)]
pub enum KeyMode {
    Major,
    Minor,
}

/// Key signature: root + major/minor mode.
#[derive(Debug, Clone, Copy, PartialEq, Eq, Structural)]
pub struct KeySignature {
    pub root: u8,
    pub mode: KeyMode,
}

/// Semitone steps of the diatonic scale of a mode.
pub open spec fn mode_intervals_spec(mode: KeyMode) -> Seq<u8> {
    match mode {
        KeyMode::Major => seq![0u8, 2, 4, 5, 7, 9, 11],
        KeyMode::Minor => seq![0u8, 2, 3, 5, 7, 8, 10],
    }
}

/// The diatonic pitch-classes of a key, starting on its root.
pub open spec fn scale_spec(k: KeySignature) -> Seq<u8> {
    mode_intervals_spec(k.mode).map_values(|i: u8| ((k.root + i) % 12) as u8)
}

/// Whether `root + step` stays within `u8` for every step of the key's mode.
pub open spec fn scale_fits(k: KeySignature) -> bool {
    forall|j: int|
        0 <= j < mode_intervals_spec(k.mode).len() ==> k.root + #[trigger] mode_intervals_spec(
            k.mode,
        )[j] <= u8::MAX
}

/// Written name of a key: root name, then "m" for minor.
pub open spec fn key_name_spec(k: KeySignature) -> Seq<char> {
    pitch_name_spec(k.root as int) + match k.mode {
        KeyMode::Major => Seq::<char>::empty(),
        KeyMode::Minor => seq!['m'],
    }
}

impl KeySignature {
    /// The major key on `root` (reduced to a pitch class).
    pub fn major(root: u8) -> (r: Self)
        ensures
            r.root == root % 12,
            r.mode == KeyMode::Major,
    {
        Self { root: root % 12, mode: KeyMode::Major }
    }

    /// The minor key on `root` (reduced to a pitch class).
    pub fn minor(root: u8) -> (r: Self)
        ensures
            r.root == root % 12,
            r.mode == KeyMode::Minor,
    {
        Self { root: root % 12, mode: KeyMode::Minor }
    }

    /// Return the diatonic pitch-classes for this key.
    pub fn scale(&self) -> (r: Vec<u8>)
        requires
            scale_fits(*self),
        ensures
            r@ == scale_spec(*self),
    {
        let steps: Vec<u8> = match self.mode {
            KeyMode::Major => vec![0, 2, 4, 5, 7, 9, 11],
            KeyMode::Minor => vec![0, 2, 3, 5, 7, 8, 10],
        };
        let mut r: Vec<u8> = Vec::new();
        let mut j: usize = 0;
        while j < steps.len()
            invariant
                scale_fits(*self),
                steps@ == mode_intervals_spec(self.mode),
                j <= steps@.len(),
                r@ == scale_spec(*self).take(j as int),
            decreases steps@.len() - j,
        {
            assert(self.root + steps@[j as int] <= u8::MAX);
            r.push((self.root + steps[j]) % 12);
            j = j + 1;
            assert(r@ =~= scale_spec(*self).take(j as int));
        }
        assert(r@ =~= scale_spec(*self));
        r
    }

    /// Written name of this key, e.g. "C" or "Am".
    pub fn to_string(&self) -> (r: String)
        requires
            self.root < 12,
        ensures
            r@ == key_name_spec(*self),
    {
        let mut s = String::new();
        s.append(pitch_class_name(self.root));
        match self.mode {
            KeyMode::Major => {},
            KeyMode::Minor => {
                proof {
                    reveal_strlit("m");
                }
                s.append("m");
            },
        }
        proof {
            if self.mode == KeyMode::Major {
                assert(s@ =~= key_name_spec(*self));
            }
        }
        s
    }
}

/// A `u8` read as the `i8` with the same bits.
pub open spec fn as_signed(r: u8) -> int {
    if r < 128 {
        r as int
    } else {
        r - 256
    }
}

/// Whether shifting `r` (read as `i8`) by `s` semitones stays within `i8`.
pub open spec fn shift_fits(r: u8, s: i8) -> bool {
    -128 <= as_signed(r) + s <= 127
}

/// The pitch class reached by shifting `r` (read as `i8`) by `s` semitones.
pub open spec fn shifted_pitch_class(r: u8, s: i8) -> u8 {
    ((as_signed(r) + s) % 12) as u8
}

/// A chord moved by `s` semitones; its quality and duration are kept.
pub open spec fn transposed_chord(c: Chord, s: i8) -> Chord {
    Chord { root: shifted_pitch_class(c.root, s), quality: c.quality, duration_beats: c.duration_beats }
}

/// Every chord of a sequence moved by `s` semitones.
pub open spec fn transposed_chords(cs: Seq<Chord>, s: i8) -> Seq<Chord> {
    cs.map_values(|c: Chord| transposed_chord(c, s))
}

/// Sum of the durations of a sequence of chords.
pub open spec fn total_beats_spec(cs: Seq<Chord>) -> nat
    decreases cs.len(),
{
    if cs.len() == 0 {
        0
    } else {
        total_beats_spec(cs.drop_last()) + cs.last().duration_beats as nat
    }
}

/// How many times `p` occurs in `s`.
pub open spec fn count_in(s: Seq<u8>, p: int) -> nat
    decreases s.len(),
{
    if s.len() == 0 {
        0
    } else {
        count_in(s.drop_last(), p) + if s.last() == p {
            1nat
        } else {
            0nat
        }
    }
}

/// How many times pitch class `p` occurs among the notes of all chords.
pub open spec fn pitch_class_count(cs: Seq<Chord>, p: int) -> nat
    decreases cs.len(),
{
    if cs.len() == 0 {
        0
    } else {
        pitch_class_count(cs.drop_last(), p) + count_in(
            notes_spec(cs.last().root, cs.last().quality),
            p,
        )
    }
}

/// Whether pitch class `p` is a note of some chord.
pub open spec fn pitch_class_used(cs: Seq<Chord>, p: int) -> bool
    decreases cs.len(),
{
    cs.len() > 0 && (pitch_class_used(cs.drop_last(), p) || notes_spec(
        cs.last().root,
        cs.last().quality,
    ).contains(p as u8))
}

/// Number of entries of `scale` that are used pitch classes.
pub open spec fn used_count(scale: Seq<u8>, cs: Seq<Chord>) -> nat
    decreases scale.len(),
{
    if scale.len() == 0 {
        0
    } else {
        used_count(scale.drop_last(), cs) + if pitch_class_used(cs, scale.last() as int) {
            1nat
        } else {
            0nat
        }
    }
}

/// How well a key's scale covers the pitch classes of the chords (its scale
/// notes are distinct, so this is the size of the intersection).
pub open spec fn key_score(cs: Seq<Chord>, k: KeySignature) -> nat {
    used_count(scale_spec(k), cs)
}

/// The candidate keys in search order: C major, C minor, C# major, ..., B minor.
pub open spec fn key_at(i: int) -> KeySignature {
    KeySignature {
        root: (i / 2) as u8,
        mode: if i % 2 == 0 {
            KeyMode::Major
        } else {
            KeyMode::Minor
        },
    }
}

/// Position of a key in the search order.
pub open spec fn key_index(k: KeySignature) -> int {
    2 * k.root + if k.mode == KeyMode::Major {
        0int
    } else {
        1int
    }
}

/// Candidate `i` has the highest score, and no earlier candidate reaches it.
pub open spec fn is_first_best(cs: Seq<Chord>, i: int) -> bool {
    &&& 0 <= i < 24
    &&& forall|j: int| 0 <= j < 24 ==> #[trigger] key_score(cs, key_at(j)) <= key_score(cs, key_at(i))
    &&& forall|j: int| 0 <= j < i ==> #[trigger] key_score(cs, key_at(j)) < key_score(cs, key_at(i))
}

/// A chord progression: ordered sequence of chords in a key.
#[derive(Debug, Clone)]
pub struct ChordProgression {
    pub chords: Vec<Chord>,
    pub key: KeySignature,
}

fn shift_pitch_class(r: u8, s: i8) -> (t: u8)
    requires
        shift_fits(r, s),
    ensures
        t == shifted_pitch_class(r, s),
        t < 12,
{
    let signed: i16 = if r < 128 {
        r as i16
    } else {
        r as i16 - 256
    };
    let v: i16 = signed + s as i16;
    let w: u16 = (v + 132) as u16;
    proof {
        assert((v + 132) % 12 == (v as int) % 12) by {
            vstd::arithmetic::div_mod::lemma_mod_multiples_vanish(11, v as int, 12);
        }
    }
    (w % 12) as u8
}

impl ChordProgression {
    /// An empty progression in `key`.
    pub fn new(key: KeySignature) -> (r: Self)
        ensures
            r.chords@ == Seq::<Chord>::empty(),
            r.key == key,
    {
        Self { chords: Vec::new(), key }
    }

    /// Append a chord.
    pub fn push(&mut self, chord: Chord)
        ensures
            final(self).chords@ == old(self).chords@.push(chord),
            final(self).key == old(self).key,
    {
        self.chords.push(chord);
    }

    /// Total duration in beats.
    pub fn total_beats(&self) -> (r: u128)
        ensures
            r == total_beats_spec(self.chords@),
    {
        let n = self.chords.len();
        let mut total: u128 = 0;
        let mut i: usize = 0;
        while i < n
            invariant
                n == self.chords@.len(),
                i <= n,
                total == total_beats_spec(self.chords@.take(i as int)),
                total <= i * (u32::MAX as int),
            decreases n - i,
        {
            assert(self.chords@.take(i + 1).drop_last() =~= self.chords@.take(i as int));
            proof {
                assert(i * (u32::MAX as int) + u32::MAX as int == (i + 1) * (u32::MAX as int))
                    by (nonlinear_arith);
                assert((i + 1) * (u32::MAX as int) <= (u64::MAX as int) * (u32::MAX as int))
                    by (nonlinear_arith)
                    requires
                        i + 1 <= u64::MAX,
                ;
            }
            total = total + self.chords[i].duration_beats as u128;
            i = i + 1;
        }
        assert(self.chords@.take(i as int) =~= self.chords@);
        total
    }

    /// Number of chords.
    pub fn len(&self) -> (r: usize)
        ensures
            r == self.chords@.len(),
    {
        self.chords.len()
    }

    /// Whether the progression has no chords.
    pub fn is_empty(&self) -> (r: bool)
        ensures
            r == (self.chords@.len() == 0),
    {
        self.chords.len() == 0
    }

    /// Transpose the entire progression (key and every chord root) by `semitones`.
    pub fn transpose(&self, semitones: i8) -> (r: Self)
        requires
            shift_fits(self.key.root, semitones),
            forall|i: int|
                0 <= i < self.chords@.len() ==> shift_fits(
                    #[trigger] self.chords@[i].root,
                    semitones,
                ),
        ensures
            r.key == (KeySignature {
                root: shifted_pitch_class(self.key.root, semitones),
                mode: self.key.mode,
            }),
            r.chords@ == transposed_chords(self.chords@, semitones),
    {
        let new_root = shift_pitch_class(self.key.root, semitones);
        let new_key = KeySignature { root: new_root, mode: self.key.mode };
        let mut chords: Vec<Chord> = Vec::new();
        let mut i: usize = 0;
        while i < self.chords.len()
            invariant
                i <= self.chords@.len(),
                forall|j: int|
                    0 <= j < self.chords@.len() ==> shift_fits(
                        #[trigger] self.chords@[j].root,
                        semitones,
                    ),
                chords@ == transposed_chords(self.chords@, semitones).take(i as int),
            decreases self.chords@.len() - i,
        {
            let c = self.chords[i];
            let t = Chord {
                root: shift_pitch_class(c.root, semitones),
                quality: c.quality,
                duration_beats: c.duration_beats,
            };
            chords.push(t);
            i = i + 1;
            assert(chords@ =~= transposed_chords(self.chords@, semitones).take(i as int));
        }
        assert(chords@ =~= transposed_chords(self.chords@, semitones));
        Self { chords, key: new_key }
    }

    /// How often each pitch class (index 0..12) occurs among the notes of the
    /// chords, the distribution over which the progression's entropy is taken.
    pub fn pitch_class_counts(&self) -> (r: Vec<usize>)
        ensures
            r@.len() == 12,
            forall|p: int| 0 <= p < 12 ==> #[trigger] r@[p] == pitch_class_count(self.chords@, p),
    {
        let mut counts: Vec<usize> = Vec::new();
        let mut p: usize = 0;
        while p < 12
            invariant
                p <= 12,
                counts@.len() == p,
                forall|q: int| 0 <= q < p ==> #[trigger] counts@[q] == 0,
            decreases 12 - p,
        {
            counts.push(0);
            p = p + 1;
        }
        let len = self.chords.len();
        let mut i: usize = 0;
        while i < len
            invariant
                len == self.chords@.len(),
                i <= len,
                counts@.len() == 12,
                forall|q: int|
                    0 <= q < 12 ==> #[trigger] counts@[q] == pitch_class_count(
                        self.chords@.take(i as int),
                        q,
                    ),
                forall|q: int| 0 <= q < 12 ==> #[trigger] counts@[q] <= i,
            decreases len - i,
        {
            let c = self.chords[i];
            let notes = c.notes();
            proof {
                lemma_notes_facts(c.root, c.quality);
                lemma_notes_distinct(c.root, c.quality);
            }
            let ghost before = counts@;
            let mut k: usize = 0;
            while k < notes.len()
                invariant
                    len == self.chords@.len(),
                    i < len,
                    notes@ == notes_spec(c.root, c.quality),
                    forall|j: int| 0 <= j < notes@.len() ==> #[trigger] notes@[j] < 12,
                    forall|a: int, b: int|
                        0 <= a < b < notes@.len() ==> #[trigger] notes@[a] != #[trigger] notes@[b],
                    k <= notes@.len(),
                    counts@.len() == 12,
                    forall|q: int|
                        0 <= q < 12 ==> #[trigger] counts@[q] == before[q] + count_in(
                            notes@.take(k as int),
                            q,
                        ),
                    forall|q: int| 0 <= q < 12 ==> #[trigger] before[q] <= i,
                decreases notes@.len() - k,
            {
                let n = notes[k] as usize;
                proof {
                    let t = notes@.take(k + 1);
                    assert(t.drop_last() =~= notes@.take(k as int));
                    assert forall|a: int, b: int| 0 <= a < b < t.len() implies #[trigger] t[a]
                        != #[trigger] t[b] by {
                        assert(t[a] == notes@[a] && t[b] == notes@[b]);
                    }
                    lemma_count_in_distinct(t, n as int);
                }
                counts.set(n, counts[n] + 1);
                k = k + 1;
            }
            proof {
                assert(notes@.take(notes@.len() as int) =~= notes@);
                assert forall|q: int| 0 <= q < 12 implies #[trigger] count_in(notes@, q) <= 1 by {
                    lemma_count_in_distinct(notes@, q);
                }
            }
            assert(self.chords@.take(i + 1).drop_last() =~= self.chords@.take(i as int));
            i = i + 1;
        }
        assert(self.chords@.take(i as int) =~= self.chords@);
        counts
    }

    /// Simple key detection: the first key, in the order C major, C minor,
    /// C# major, ..., B minor, whose scale covers the most of the pitch classes
    /// used by the chords.
    pub fn detect_key(&self) -> (r: KeySignature)
        ensures
            r.root < 12,
            r == key_at(key_index(r)),
            is_first_best(self.chords@, key_index(r)),
    {
        let used = self.used_pitch_classes();
        let mut best_key = KeySignature::major(0);
        let mut best_score: usize = 0;
        let ghost mut best_idx: int = 0;
        let mut idx: u8 = 0;
        while idx < 24
            invariant
                forall|q: int| 0 <= q < 12 ==> #[trigger] used@.contains(q as u8) == pitch_class_used(self.chords@, q),
                idx <= 24,
                0 <= best_idx < 24,
                best_idx <= idx || best_idx == 0,
                best_key == key_at(best_idx),
                idx > 0 ==> best_score == key_score(self.chords@, key_at(best_idx)),
                idx == 0 ==> best_score == 0 && best_idx == 0,
                forall|j: int| 0 <= j < idx ==> #[trigger] key_score(self.chords@, key_at(j)) <= best_score,
                forall|j: int| 0 <= j < best_idx ==> #[trigger] key_score(self.chords@, key_at(j)) < best_score,
                best_idx < idx || idx == 0,
            decreases 24 - idx,
        {
            let root = idx / 2;
            let mode = if idx % 2 == 0 {
                KeyMode::Major
            } else {
                KeyMode::Minor
            };
            let key = KeySignature { root, mode };
            assert(key == key_at(idx as int));
            let score = Self::scale_coverage(&used, key, Ghost(self.chords@));
            if score > best_score {
                best_score = score;
                best_key = key;
                proof {
                    best_idx = idx as int;
                }
            }
            idx = idx + 1;
        }
        proof {
            assert(key_index(best_key) == best_idx);
        }
        best_key
    }

    /// The set of pitch classes that occur among the notes of the chords.
    fn used_pitch_classes(&self) -> (r: HashSet<u8>)
        ensures
            forall|q: int| 0 <= q < 12 ==> #[trigger] r@.contains(q as u8) == pitch_class_used(self.chords@, q),
    {
        broadcast use vstd::std_specs::hash::group_hash_axioms;

        let mut used: HashSet<u8> = HashSet::new();
        let mut i: usize = 0;
        while i < self.chords.len()
            invariant
                i <= self.chords@.len(),
                forall|q: int|
                    0 <= q < 12 ==> #[trigger] used@.contains(q as u8) == pitch_class_used(
                        self.chords@.take(i as int),
                        q,
                    ),
            decreases self.chords@.len() - i,
        {
            let c = self.chords[i];
            let notes = c.notes();
            proof {
                lemma_notes_facts(c.root, c.quality);
            }
            let ghost before = used@;
            let mut k: usize = 0;
            while k < notes.len()
                invariant
                    notes@ == notes_spec(c.root, c.quality),
                    forall|j: int| 0 <= j < notes@.len() ==> #[trigger] notes@[j] < 12,
                    k <= notes@.len(),
                    forall|q: int|
                        0 <= q < 12 ==> #[trigger] used@.contains(q as u8) == (before.contains(
                            q as u8,
                        ) || notes@.take(k as int).contains(q as u8)),
                decreases notes@.len() - k,
            {
                let n = notes[k];
                proof {
                    assert(notes@.take(k + 1) =~= notes@.take(k as int).push(notes@[k as int]));
                    assert forall|q: int| 0 <= q < 12 implies #[trigger] notes@.take(k + 1).contains(
                        q as u8,
                    ) == (notes@.take(k as int).contains(q as u8) || notes@[k as int] == q) by {
                        lemma_contains_push(notes@.take(k as int), notes@[k as int], q as u8);
                    }
                }
                used.insert(n);
                k = k + 1;
            }
            assert(notes@.take(notes@.len() as int) =~= notes@);
            assert(self.chords@.take(i + 1).drop_last() =~= self.chords@.take(i as int));
            assert(self.chords@.take(i + 1).last() == c);
            i = i + 1;
        }
        assert(self.chords@.take(i as int) =~= self.chords@);
        used
    }

    /// Number of scale notes of `key` that are in `used`.
    fn scale_coverage(used: &HashSet<u8>, key: KeySignature, Ghost(cs): Ghost<Seq<Chord>>) -> (r: usize)
        requires
            key.root < 12,
            forall|q: int| 0 <= q < 12 ==> #[trigger] used@.contains(q as u8) == pitch_class_used(cs, q),
        ensures
            r == key_score(cs, key),
            r <= 7,
    {
        broadcast use vstd::std_specs::hash::group_hash_axioms;

        let scale = key.scale();
        let mut count: usize = 0;
        let mut j: usize = 0;
        while j < scale.len()
            invariant
                scale@ == scale_spec(key),
                scale@.len() == 7,
                forall|q: int| 0 <= q < 12 ==> #[trigger] used@.contains(q as u8) == pitch_class_used(cs, q),
                j <= 7,
                count <= j,
                count == used_count(scale@.take(j as int), cs),
            decreases 7 - j,
        {
            let p = scale[j];
            assert(scale@.take(j + 1).drop_last() =~= scale@.take(j as int));
            assert(used@.contains((p as int) as u8) == pitch_class_used(cs, p as int));
            if used.contains(&p) {
                count = count + 1;
            }
            j = j + 1;
        }
        assert(scale@.take(7) =~= scale@);
        count
    }
}

/// The notes of a chord are distinct pitch classes.
pub proof fn lemma_notes_distinct(root: u8, q: crate::chord::ChordQuality)
    ensures
        forall|a: int, b: int|
            0 <= a < b < notes_spec(root, q).len() ==> #[trigger] notes_spec(root, q)[a]
                != #[trigger] notes_spec(root, q)[b],
{
    let s = notes_spec(root, q);
    let m = crate::chord::intervals_spec(q);
    assert forall|a: int, b: int| 0 <= a < b < s.len() implies #[trigger] s[a] != #[trigger] s[b] by {
        assert(s[a] == ((root + m[a]) % 12) as u8);
        assert(s[b] == ((root + m[b]) % 12) as u8);
        assert(0 < m[b] - m[a] < 12);
    }
}

/// A sequence without repeats holds each value at most once.
proof fn lemma_count_in_distinct(s: Seq<u8>, p: int)
    requires
        forall|a: int, b: int| 0 <= a < b < s.len() ==> #[trigger] s[a] != #[trigger] s[b],
    ensures
        count_in(s, p) <= 1,
    decreases s.len(),
{
    if s.len() > 0 {
        let t = s.drop_last();
        assert forall|a: int, b: int| 0 <= a < b < t.len() implies #[trigger] t[a] != #[trigger] t[b] by {
            assert(t[a] == s[a] && t[b] == s[b]);
        }
        lemma_count_in_distinct(t, p);
        if s.last() == p {
            lemma_count_in_absent(t, p);
        }
    }
}

proof fn lemma_count_in_absent(s: Seq<u8>, p: int)
    requires
        forall|a: int| 0 <= a < s.len() ==> s[a] != p,
    ensures
        count_in(s, p) == 0,
    decreases s.len(),
{
    if s.len() > 0 {
        lemma_count_in_absent(s.drop_last(), p);
    }
}

/// The seven notes of a key's scale are distinct pitch classes, the first being
/// the root; so counting covered scale entries counts covered pitch classes.
pub proof fn lemma_scale_distinct(k: KeySignature)
    requires
        k.root < 12,
    ensures
        scale_spec(k).len() == 7,
        scale_spec(k)[0] == k.root,
        forall|i: int| 0 <= i < 7 ==> #[trigger] scale_spec(k)[i] < 12,
        forall|i: int, j: int|
            0 <= i < j < 7 ==> #[trigger] scale_spec(k)[i] != #[trigger] scale_spec(k)[j],
{
    let s = scale_spec(k);
    let m = mode_intervals_spec(k.mode);
    assert forall|i: int, j: int| 0 <= i < j < 7 implies #[trigger] s[i] != #[trigger] s[j] by {
        assert(s[i] == ((k.root + m[i]) % 12) as u8);
        assert(s[j] == ((k.root + m[j]) % 12) as u8);
        assert(0 < m[j] - m[i] < 12);
    }
}

/// Shifting a pitch class by `s` and then by `-s` returns it.
pub proof fn lemma_shift_round_trip(r: u8, s: i8)
    requires
        r < 12,
        s > i8::MIN,
    ensures
        shifted_pitch_class(shifted_pitch_class(r, s), (-s) as i8) == r,
{
    let x = (r + s) % 12;
    assert(0 <= x < 12);
    assert(shifted_pitch_class(r, s) == x);
    vstd::arithmetic::div_mod::lemma_fundamental_div_mod(r + s, 12);
    let q = (r + s) / 12;
    assert(x - s == r - 12 * q);
    vstd::arithmetic::div_mod::lemma_mod_multiples_vanish(-q, r as int, 12);
    assert((r - 12 * q) % 12 == (12 * (-q) + r) % 12);
    vstd::arithmetic::div_mod::lemma_small_mod(r as nat, 12);
}

/// Transposing a progression's chords by `s` and then by `-s` gives back the
/// same chords (roots, qualities and durations).
pub proof fn lemma_transpose_round_trip(cs: Seq<Chord>, s: i8)
    requires
        s > i8::MIN,
        forall|i: int| 0 <= i < cs.len() ==> #[trigger] cs[i].root < 12,
    ensures
        transposed_chords(transposed_chords(cs, s), (-s) as i8) == cs,
{
    let back = transposed_chords(transposed_chords(cs, s), (-s) as i8);
    assert forall|i: int| 0 <= i < cs.len() implies #[trigger] back[i] == cs[i] by {
        lemma_shift_round_trip(cs[i].root, s);
    }
    assert(back =~= cs);
}

proof fn lemma_contains_push(s: Seq<u8>, x: u8, q: u8)
    ensures
        s.push(x).contains(q) == (s.contains(q) || x == q),
{
    if s.contains(q) {
        let k = choose|k: int| 0 <= k < s.len() && s[k] == q;
        assert(s.push(x)[k] == q);
    }
    if x == q {
        assert(s.push(x)[s.len() as int] == q);
    }
    if s.push(x).contains(q) {
        let k = choose|k: int| 0 <= k < s.push(x).len() && s.push(x)[k] == q;
        if k < s.len() {
            assert(s[k] == q);
        }
    }
}

} // verus!
