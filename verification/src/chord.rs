//! Chords: qualities, pitch-class content, parsing, naming and voice leading.

use vstd::prelude::*;

use crate::error::ComposeError;
use crate::text::{range_equals, str_chars, trim_bounds, trim_spec};

verus! {

/// Chord quality / type.
#[derive(Debug, Clone, Copy, PartialEq, Eq, Hash, Structural)]
pub enum ChordQuality {
    Major,
    Minor,
    Dominant7,
    Major7,
    Minor7,
    HalfDim7,
    Dim7,
    Augmented,
    Sus2,
    Sus4,
}

/// Semitone intervals above the root that make up a quality (root included).
pub open spec fn intervals_spec(q: ChordQuality) -> Seq<u8> {
    match q {
        ChordQuality::Major => seq![0u8, 4, 7],
        ChordQuality::Minor => seq![0u8, 3, 7],
        ChordQuality::Dominant7 => seq![0u8, 4, 7, 10],
        ChordQuality::Major7 => seq![0u8, 4, 7, 11],
        ChordQuality::Minor7 => seq![0u8, 3, 7, 10],
        ChordQuality::HalfDim7 => seq![0u8, 3, 6, 10],
        ChordQuality::Dim7 => seq![0u8, 3, 6, 9],
        ChordQuality::Augmented => seq![0u8, 4, 8],
        ChordQuality::Sus2 => seq![0u8, 2, 7],
        ChordQuality::Sus4 => seq![0u8, 5, 7],
    }
}

impl ChordQuality {
    /// Semitone intervals from the root, inclusive of the root (0).
    pub fn intervals(&self) -> (r: Vec<u8>)
        ensures
            r@ == intervals_spec(*self),
    {
        match self {
            ChordQuality::Major => vec![0, 4, 7],
            ChordQuality::Minor => vec![0, 3, 7],
            ChordQuality::Dominant7 => vec![0, 4, 7, 10],
            ChordQuality::Major7 => vec![0, 4, 7, 11],
            ChordQuality::Minor7 => vec![0, 3, 7, 10],
            ChordQuality::HalfDim7 => vec![0, 3, 6, 10],
            ChordQuality::Dim7 => vec![0, 3, 6, 9],
            ChordQuality::Augmented => vec![0, 4, 8],
            ChordQuality::Sus2 => vec![0, 2, 7],
            ChordQuality::Sus4 => vec![0, 5, 7],
        }
    }
}

/// Name of a pitch class (0 = C, 1 = C#, ..., 11 = B), sharps for black keys.
pub open spec fn pitch_name_spec(pc: int) -> Seq<char> {
    if pc == 0 {
        seq!['C']
    } else if pc == 1 {
        seq!['C', '#']
    } else if pc == 2 {
        seq!['D']
    } else if pc == 3 {
        seq!['D', '#']
    } else if pc == 4 {
        seq!['E']
    } else if pc == 5 {
        seq!['F']
    } else if pc == 6 {
        seq!['F', '#']
    } else if pc == 7 {
        seq!['G']
    } else if pc == 8 {
        seq!['G', '#']
    } else if pc == 9 {
        seq!['A']
    } else if pc == 10 {
        seq!['A', '#']
    } else {
        seq!['B']
    }
}

/// Pitch-class name indexed by semitone (0 = "C", ..., 11 = "B").
pub fn pitch_class_name(pc: u8) -> (r: &'static str)
    requires
        pc < 12,
    ensures
        r@ == pitch_name_spec(pc as int),
{
    proof {
        reveal_strlit("C");
        reveal_strlit("C#");
        reveal_strlit("D");
        reveal_strlit("D#");
        reveal_strlit("E");
        reveal_strlit("F");
        reveal_strlit("F#");
        reveal_strlit("G");
        reveal_strlit("G#");
        reveal_strlit("A");
        reveal_strlit("A#");
        reveal_strlit("B");
    }
    match pc {
        0 => "C",
        1 => "C#",
        2 => "D",
        3 => "D#",
        4 => "E",
        5 => "F",
        6 => "F#",
        7 => "G",
        8 => "G#",
        9 => "A",
        10 => "A#",
        _ => "B",
    }
}

/// The written suffix of a quality ("" for major, "m7b5" for half-diminished, ...).
pub open spec fn suffix_spec(q: ChordQuality) -> Seq<char> {
    match q {
        ChordQuality::Major => seq![],
        ChordQuality::Minor => seq!['m'],
        ChordQuality::Dominant7 => seq!['7'],
        ChordQuality::Major7 => seq!['m', 'a', 'j', '7'],
        ChordQuality::Minor7 => seq!['m', '7'],
        ChordQuality::HalfDim7 => seq!['m', '7', 'b', '5'],
        ChordQuality::Dim7 => seq!['d', 'i', 'm', '7'],
        ChordQuality::Augmented => seq!['a', 'u', 'g'],
        ChordQuality::Sus2 => seq!['s', 'u', 's', '2'],
        ChordQuality::Sus4 => seq!['s', 'u', 's', '4'],
    }
}

/// Quality suffix used when a chord is written out.
pub fn quality_suffix(q: &ChordQuality) -> (r: &'static str)
    ensures
        r@ == suffix_spec(*q),
{
    proof {
        reveal_strlit("");
        reveal_strlit("m");
        reveal_strlit("7");
        reveal_strlit("maj7");
        reveal_strlit("m7");
        reveal_strlit("m7b5");
        reveal_strlit("dim7");
        reveal_strlit("aug");
        reveal_strlit("sus2");
        reveal_strlit("sus4");
    }
    match q {
        ChordQuality::Major => "",
        ChordQuality::Minor => "m",
        ChordQuality::Dominant7 => "7",
        ChordQuality::Major7 => "maj7",
        ChordQuality::Minor7 => "m7",
        ChordQuality::HalfDim7 => "m7b5",
        ChordQuality::Dim7 => "dim7",
        ChordQuality::Augmented => "aug",
        ChordQuality::Sus2 => "sus2",
        ChordQuality::Sus4 => "sus4",
    }
}

/// The quality that a suffix names, if any (accepting the alternative
/// spellings "M7", "-7b5" and "+").
pub open spec fn quality_of_suffix(s: Seq<char>) -> Option<ChordQuality> {
    if s.len() == 0 {
        Some(ChordQuality::Major)
    } else if s == seq!['m'] {
        Some(ChordQuality::Minor)
    } else if s == seq!['7'] {
        Some(ChordQuality::Dominant7)
    } else if s == seq!['m', 'a', 'j', '7'] || s == seq!['M', '7'] {
        Some(ChordQuality::Major7)
    } else if s == seq!['m', '7'] {
        Some(ChordQuality::Minor7)
    } else if s == seq!['m', '7', 'b', '5'] || s == seq!['-', '7', 'b', '5'] {
        Some(ChordQuality::HalfDim7)
    } else if s == seq!['d', 'i', 'm', '7'] {
        Some(ChordQuality::Dim7)
    } else if s == seq!['a', 'u', 'g'] || s == seq!['+'] {
        Some(ChordQuality::Augmented)
    } else if s == seq!['s', 'u', 's', '2'] {
        Some(ChordQuality::Sus2)
    } else if s == seq!['s', 'u', 's', '4'] {
        Some(ChordQuality::Sus4)
    } else {
        None
    }
}

fn quality_from_suffix(s: &Vec<char>, from: usize, to: usize) -> (r: Option<ChordQuality>)
    requires
        from <= to <= s@.len(),
    ensures
        r == quality_of_suffix(s@.subrange(from as int, to as int)),
{
    let empty: Vec<char> = Vec::new();
    let m = vec!['m'];
    let seven = vec!['7'];
    let maj7 = vec!['m', 'a', 'j', '7'];
    let big_m7 = vec!['M', '7'];
    let m7 = vec!['m', '7'];
    let m7b5 = vec!['m', '7', 'b', '5'];
    let dash7b5 = vec!['-', '7', 'b', '5'];
    let dim7 = vec!['d', 'i', 'm', '7'];
    let aug = vec!['a', 'u', 'g'];
    let plus = vec!['+'];
    let sus2 = vec!['s', 'u', 's', '2'];
    let sus4 = vec!['s', 'u', 's', '4'];
    proof {
        let ss = s@.subrange(from as int, to as int);
        if ss.len() == 0 {
            assert(ss =~= empty@);
        }
        assert(m@ == seq!['m']);
        assert(seven@ == seq!['7']);
        assert(maj7@ == seq!['m', 'a', 'j', '7']);
        assert(big_m7@ == seq!['M', '7']);
        assert(m7@ == seq!['m', '7']);
        assert(m7b5@ == seq!['m', '7', 'b', '5']);
        assert(dash7b5@ == seq!['-', '7', 'b', '5']);
        assert(dim7@ == seq!['d', 'i', 'm', '7']);
        assert(aug@ == seq!['a', 'u', 'g']);
        assert(plus@ == seq!['+']);
        assert(sus2@ == seq!['s', 'u', 's', '2']);
        assert(sus4@ == seq!['s', 'u', 's', '4']);
    }
    if range_equals(s, from, to, &empty) {
        Some(ChordQuality::Major)
    } else if range_equals(s, from, to, &m) {
        Some(ChordQuality::Minor)
    } else if range_equals(s, from, to, &seven) {
        Some(ChordQuality::Dominant7)
    } else if range_equals(s, from, to, &maj7) || range_equals(s, from, to, &big_m7) {
        Some(ChordQuality::Major7)
    } else if range_equals(s, from, to, &m7) {
        Some(ChordQuality::Minor7)
    } else if range_equals(s, from, to, &m7b5) || range_equals(s, from, to, &dash7b5) {
        Some(ChordQuality::HalfDim7)
    } else if range_equals(s, from, to, &dim7) {
        Some(ChordQuality::Dim7)
    } else if range_equals(s, from, to, &aug) || range_equals(s, from, to, &plus) {
        Some(ChordQuality::Augmented)
    } else if range_equals(s, from, to, &sus2) {
        Some(ChordQuality::Sus2)
    } else if range_equals(s, from, to, &sus4) {
        Some(ChordQuality::Sus4)
    } else {
        None
    }
}

/// Pitch class named by a root letter, if the character is one of `A`..`G`.
pub open spec fn letter_pitch_class(c: char) -> Option<u8> {
    if c == 'C' {
        Some(0u8)
    } else if c == 'D' {
        Some(2u8)
    } else if c == 'E' {
        Some(4u8)
    } else if c == 'F' {
        Some(5u8)
    } else if c == 'G' {
        Some(7u8)
    } else if c == 'A' {
        Some(9u8)
    } else if c == 'B' {
        Some(11u8)
    } else {
        None
    }
}

/// What parsing a chord name yields: the root pitch class and quality, or the
/// message of the parse error.
pub open spec fn parse_spec(name: Seq<char>) -> Result<(u8, ChordQuality), Seq<char>> {
    let t = trim_spec(name);
    if t.len() == 0 {
        Err("empty chord name"@)
    } else if t[0] == '#' {
        Err("invalid chord: "@ + t)
    } else {
        match letter_pitch_class(t[0]) {
            None => Err("unknown root: "@ + t),
            Some(pc) => {
                let rest = t.skip(1);
                let sharp = rest.len() > 0 && rest[0] == '#';
                let flat = rest.len() > 0 && rest[0] == 'b';
                let root: u8 = if sharp {
                    ((pc + 1) % 12) as u8
                } else if flat {
                    ((pc + 11) % 12) as u8
                } else {
                    pc
                };
                let suffix = if sharp || flat {
                    rest.skip(1)
                } else {
                    rest
                };
                match quality_of_suffix(suffix) {
                    Some(q) => Ok((root, q)),
                    None => Err("unknown quality: "@ + suffix),
                }
            },
        }
    }
}

/// Pitch classes of a chord: each interval of its quality added to the root, mod 12.
pub open spec fn notes_spec(root: u8, q: ChordQuality) -> Seq<u8> {
    intervals_spec(q).map_values(|i: u8| ((root + i) % 12) as u8)
}

/// Distance between two pitch classes around the octave circle.
pub open spec fn circle_distance(a: u8, b: u8) -> int {
    let d = if a >= b {
        a - b
    } else {
        b - a
    };
    if d <= 12 - d {
        d
    } else {
        12 - d
    }
}

/// Distance from `a` to the nearest note of `b` (`u32::MAX` when `b` is empty).
pub open spec fn nearest_distance(a: u8, b: Seq<u8>) -> int
    decreases b.len(),
{
    if b.len() == 0 {
        u32::MAX as int
    } else {
        let rest = nearest_distance(a, b.drop_last());
        let d = circle_distance(a, b.last());
        if d < rest {
            d
        } else {
            rest
        }
    }
}

/// Total movement when every note of `a` moves to its nearest note of `b`.
pub open spec fn voice_leading_spec(a: Seq<u8>, b: Seq<u8>) -> int
    decreases a.len(),
{
    if a.len() == 0 {
        0
    } else {
        voice_leading_spec(a.drop_last(), b) + nearest_distance(a.last(), b)
    }
}

/// A single chord: root pitch-class (0–11) + quality + duration.
#[derive(Debug, Clone, Copy)]
pub struct Chord {
    /// Root pitch class (0 = C, 1 = C#, …, 11 = B).
    pub root: u8,
    pub quality: ChordQuality,
    /// Duration in whole beats.
    pub duration_beats: u32,
}

/// Written name of a chord: root name followed by the quality suffix.
pub open spec fn chord_name_spec(root: u8, q: ChordQuality) -> Seq<char> {
    pitch_name_spec(root as int) + suffix_spec(q)
}

impl Chord {
    /// Create a new chord with the given root (reduced to a pitch class), quality, and duration.
    pub fn new(root: u8, quality: ChordQuality, duration_beats: u32) -> (r: Chord)
        ensures
            r.root == root % 12,
            r.quality == quality,
            r.duration_beats == duration_beats,
    {
        Chord { root: root % 12, quality, duration_beats }
    }

    /// Parse a chord name like "Cmaj7", "Dm7", "G7", "F#m7b5" (four beats long).
    pub fn parse(name: &str) -> (r: Result<Chord, ComposeError>)
        ensures
            match r {
                Ok(c) => parse_spec(name@) == Ok::<(u8, ChordQuality), Seq<char>>(
                    (c.root, c.quality),
                ) && c.duration_beats == 4,
                Err(ComposeError::ParseError(m)) => parse_spec(name@) == Err::<
                    (u8, ChordQuality),
                    Seq<char>,
                >(m@),
                Err(_) => false,
            },
    {
        let chars = str_chars(name);
        let (b, e) = trim_bounds(&chars);
        let trimmed = name.substring_char(b, e);
        let ghost t = trim_spec(name@);
        assert(trimmed@ == t);
        if b == e {
            return Err(ComposeError::ParseError(String::from_str("empty chord name")));
        }
        assert(chars@[b as int] == t[0]);
        let first = chars[b];
        if first == '#' {
            return Err(
                ComposeError::ParseError(String::from_str("invalid chord: ").concat(trimmed)),
            );
        }
        let pc: u8 = if first == 'C' {
            0
        } else if first == 'D' {
            2
        } else if first == 'E' {
            4
        } else if first == 'F' {
            5
        } else if first == 'G' {
            7
        } else if first == 'A' {
            9
        } else if first == 'B' {
            11
        } else {
            return Err(
                ComposeError::ParseError(String::from_str("unknown root: ").concat(trimmed)),
            );
        };
        let ghost rest = t.skip(1);
        let sharp = b + 1 < e && chars[b + 1] == '#';
        let flat = b + 1 < e && chars[b + 1] == 'b';
        proof {
            if b + 1 < e {
                assert(rest[0] == chars@[b + 1]);
            }
        }
        let root: u8 = if sharp {
            (pc + 1) % 12
        } else if flat {
            (pc + 11) % 12
        } else {
            pc
        };
        let start: usize = if sharp || flat {
            b + 2
        } else {
            b + 1
        };
        proof {
            if sharp || flat {
                assert(chars@.subrange(start as int, e as int) =~= rest.skip(1));
            } else {
                assert(chars@.subrange(start as int, e as int) =~= rest);
            }
        }
        match quality_from_suffix(&chars, start, e) {
            Some(q) => Ok(Chord::new(root, q, 4)),
            None => {
                let suffix = name.substring_char(start, e);
                Err(ComposeError::ParseError(String::from_str("unknown quality: ").concat(suffix)))
            },
        }
    }

    /// Return the constituent pitch-classes of this chord.
    pub fn notes(&self) -> (r: Vec<u8>)
        ensures
            r@ == notes_spec(self.root, self.quality),
    {
        let iv = self.quality.intervals();
        let mut r: Vec<u8> = Vec::new();
        let mut k: usize = 0;
        while k < iv.len()
            invariant
                iv@ == intervals_spec(self.quality),
                k <= iv@.len(),
                r@ == notes_spec(self.root, self.quality).take(k as int),
            decreases iv@.len() - k,
        {
            let n: u8 = ((self.root as u16 + iv[k] as u16) % 12) as u8;
            r.push(n);
            k = k + 1;
            assert(r@ =~= notes_spec(self.root, self.quality).take(k as int));
        }
        assert(r@ =~= notes_spec(self.root, self.quality));
        r
    }

    /// Voice-leading distance to another chord: every note of this chord moves to
    /// the nearest note of `other` (around the octave circle), and the moves are summed.
    pub fn voice_leading_distance(&self, other: &Chord) -> (r: u32)
        ensures
            r == voice_leading_spec(
                notes_spec(self.root, self.quality),
                notes_spec(other.root, other.quality),
            ),
    {
        let a = self.notes();
        let b = other.notes();
        proof {
            lemma_notes_facts(self.root, self.quality);
            lemma_notes_facts(other.root, other.quality);
        }
        let mut total: u32 = 0;
        let mut i: usize = 0;
        while i < a.len()
            invariant
                a@ == notes_spec(self.root, self.quality),
                b@ == notes_spec(other.root, other.quality),
                forall|k: int| 0 <= k < a@.len() ==> #[trigger] a@[k] < 12,
                forall|k: int| 0 <= k < b@.len() ==> #[trigger] b@[k] < 12,
                b@.len() > 0,
                i <= a@.len(),
                total == voice_leading_spec(a@.take(i as int), b@),
                total <= 6 * i,
            decreases a@.len() - i,
        {
            let note_a = a[i];
            let mut best: u32 = u32::MAX;
            let mut j: usize = 0;
            while j < b.len()
                invariant
                    b@ == notes_spec(other.root, other.quality),
                    forall|k: int| 0 <= k < b@.len() ==> #[trigger] b@[k] < 12,
                    note_a < 12,
                    j <= b@.len(),
                    best == nearest_distance(note_a, b@.take(j as int)),
                decreases b@.len() - j,
            {
                let note_b = b[j];
                let d: u32 = if note_a >= note_b {
                    (note_a - note_b) as u32
                } else {
                    (note_b - note_a) as u32
                };
                let d = if d <= 12 - d {
                    d
                } else {
                    12 - d
                };
                assert(b@.take(j + 1).drop_last() =~= b@.take(j as int));
                if d < best {
                    best = d;
                }
                j = j + 1;
            }
            assert(b@.take(b@.len() as int) =~= b@);
            proof {
                lemma_nearest_at_most_six(note_a, b@);
            }
            assert(a@.take(i + 1).drop_last() =~= a@.take(i as int));
            total = total + best;
            i = i + 1;
        }
        assert(a@.take(a@.len() as int) =~= a@);
        total
    }

    /// Written name of this chord, e.g. "F#m7b5".
    pub fn to_string(&self) -> (r: String)
        requires
            self.root < 12,
        ensures
            r@ == chord_name_spec(self.root, self.quality),
    {
        let mut s = String::new();
        s.append(pitch_class_name(self.root));
        s.append(quality_suffix(&self.quality));
        s
    }
}

/// Every note of a chord is a pitch class, and a chord has at least three notes.
pub proof fn lemma_notes_facts(root: u8, q: ChordQuality)
    ensures
        notes_spec(root, q).len() == intervals_spec(q).len(),
        3 <= notes_spec(root, q).len() <= 4,
        forall|k: int| 0 <= k < notes_spec(root, q).len() ==> #[trigger] notes_spec(root, q)[k] < 12,
{
}

proof fn lemma_nearest_at_most_six(a: u8, b: Seq<u8>)
    requires
        a < 12,
        b.len() > 0,
        forall|k: int| 0 <= k < b.len() ==> #[trigger] b[k] < 12,
    ensures
        0 <= nearest_distance(a, b) <= 6,
    decreases b.len(),
{
    let last = b.last();
    assert(last == b[b.len() - 1]);
    assert(0 <= circle_distance(a, last) <= 6);
    if b.len() > 1 {
        lemma_nearest_at_most_six(a, b.drop_last());
    } else {
        assert(b.drop_last().len() == 0);
        assert(nearest_distance(a, b.drop_last()) == u32::MAX as int);
    }
}

/// A name without surrounding whitespace is its own trim.
proof fn lemma_trim_untouched(s: Seq<char>)
    requires
        s.len() > 0,
        !crate::text::is_whitespace_spec(s[0]),
        !crate::text::is_whitespace_spec(s.last()),
    ensures
        trim_spec(s) == s,
{
    assert(crate::text::trim_start_spec(s) == s);
    assert(crate::text::trim_end_spec(s) == s);
}

/// Writing a chord's name and parsing it back gives the same root and quality.
pub proof fn lemma_name_parse_roundtrip(root: u8, q: ChordQuality)
    requires
        root < 12,
    ensures
        parse_spec(chord_name_spec(root, q)) == Ok::<(u8, ChordQuality), Seq<char>>((root, q)),
{
    let p = pitch_name_spec(root as int);
    let x = suffix_spec(q);
    let s = p + x;
    assert(s[0] == p[0]);
    assert(s.last() == if x.len() > 0 { x.last() } else { p.last() });
    lemma_trim_untouched(s);
    let rest = s.skip(1);
    if p.len() == 2 {
        assert(rest[0] == '#');
        assert(rest.skip(1) =~= x);
    } else {
        assert(rest =~= x);
    }
    assert(quality_of_suffix(x) == Some(q));
}

proof fn lemma_nearest_zero_when_present(a: u8, b: Seq<u8>)
    requires
        a < 12,
        b.contains(a),
        forall|k: int| 0 <= k < b.len() ==> #[trigger] b[k] < 12,
    ensures
        nearest_distance(a, b) == 0,
    decreases b.len(),
{
    let last = b.last();
    assert(last == b[b.len() - 1]);
    if last == a {
        lemma_nearest_nonnegative(a, b.drop_last());
    } else {
        let k = choose|k: int| 0 <= k < b.len() && b[k] == a;
        assert(b.drop_last()[k] == a);
        lemma_nearest_zero_when_present(a, b.drop_last());
    }
}

proof fn lemma_nearest_nonnegative(a: u8, b: Seq<u8>)
    requires
        a < 12,
        forall|k: int| 0 <= k < b.len() ==> #[trigger] b[k] < 12,
    ensures
        nearest_distance(a, b) >= 0,
    decreases b.len(),
{
    if b.len() > 0 {
        assert(b.last() == b[b.len() - 1]);
        lemma_nearest_nonnegative(a, b.drop_last());
    }
}

proof fn lemma_voice_leading_zero_when_contained(a: Seq<u8>, b: Seq<u8>)
    requires
        forall|k: int| 0 <= k < a.len() ==> b.contains(#[trigger] a[k]),
        forall|k: int| 0 <= k < a.len() ==> #[trigger] a[k] < 12,
        forall|k: int| 0 <= k < b.len() ==> #[trigger] b[k] < 12,
    ensures
        voice_leading_spec(a, b) == 0,
    decreases a.len(),
{
    if a.len() > 0 {
        assert(a.last() == a[a.len() - 1]);
        lemma_nearest_zero_when_present(a.last(), b);
        assert forall|k: int| 0 <= k < a.drop_last().len() implies b.contains(
            #[trigger] a.drop_last()[k],
        ) by {
            assert(a.drop_last()[k] == a[k]);
        }
        lemma_voice_leading_zero_when_contained(a.drop_last(), b);
    }
}

/// A chord is at voice-leading distance zero from itself.
pub proof fn lemma_voice_leading_self_zero(root: u8, q: ChordQuality)
    ensures
        voice_leading_spec(notes_spec(root, q), notes_spec(root, q)) == 0,
{
    let n = notes_spec(root, q);
    lemma_notes_facts(root, q);
    assert forall|k: int| 0 <= k < n.len() implies n.contains(#[trigger] n[k]) by {
        assert(n[k] == n[k]);
    }
    lemma_voice_leading_zero_when_contained(n, n);
}

/// Each note moves at most a tritone, so two chords are at most 24 apart.
pub proof fn lemma_voice_leading_at_most(a: Chord, b: Chord)
    ensures
        0 <= voice_leading_spec(notes_spec(a.root, a.quality), notes_spec(b.root, b.quality)) <= 24,
{
    lemma_notes_facts(a.root, a.quality);
    lemma_notes_facts(b.root, b.quality);
    lemma_voice_leading_bound(notes_spec(a.root, a.quality), notes_spec(b.root, b.quality));
}

proof fn lemma_voice_leading_bound(a: Seq<u8>, b: Seq<u8>)
    requires
        b.len() > 0,
        forall|k: int| 0 <= k < a.len() ==> #[trigger] a[k] < 12,
        forall|k: int| 0 <= k < b.len() ==> #[trigger] b[k] < 12,
    ensures
        0 <= voice_leading_spec(a, b) <= 6 * a.len(),
    decreases a.len(),
{
    if a.len() > 0 {
        assert(a.last() == a[a.len() - 1]);
        lemma_nearest_at_most_six(a.last(), b);
        lemma_voice_leading_bound(a.drop_last(), b);
    }
}

/// The pitch class `k` semitones above `root`.
pub open spec fn above(root: u8, k: int) -> u8 {
    ((root + k) % 12) as u8
}

/// What each quality is, in semitones above its root: major triad = major
/// third (4) + perfect fifth (7); minor triad = minor third (3) + perfect
/// fifth; dominant seventh = major triad + minor seventh (10); major seventh =
/// major triad + major seventh (11); minor seventh = minor triad + minor
/// seventh; half-diminished = minor third + diminished fifth (6) + minor
/// seventh; diminished seventh = stacked minor thirds (3, 6, 9); augmented =
/// major third + augmented fifth (8); sus2 / sus4 = the third replaced by a
/// major second (2) / perfect fourth (5).
pub proof fn lemma_chord_tones(root: u8)
    ensures
        notes_spec(root, ChordQuality::Major) == seq![above(root, 0), above(root, 4), above(root, 7)],
        notes_spec(root, ChordQuality::Minor) == seq![above(root, 0), above(root, 3), above(root, 7)],
        notes_spec(root, ChordQuality::Dominant7) == seq![
            above(root, 0),
            above(root, 4),
            above(root, 7),
            above(root, 10),
        ],
        notes_spec(root, ChordQuality::Major7) == seq![
            above(root, 0),
            above(root, 4),
            above(root, 7),
            above(root, 11),
        ],
        notes_spec(root, ChordQuality::Minor7) == seq![
            above(root, 0),
            above(root, 3),
            above(root, 7),
            above(root, 10),
        ],
        notes_spec(root, ChordQuality::HalfDim7) == seq![
            above(root, 0),
            above(root, 3),
            above(root, 6),
            above(root, 10),
        ],
        notes_spec(root, ChordQuality::Dim7) == seq![
            above(root, 0),
            above(root, 3),
            above(root, 6),
            above(root, 9),
        ],
        notes_spec(root, ChordQuality::Augmented) == seq![above(root, 0), above(root, 4), above(root, 8)],
        notes_spec(root, ChordQuality::Sus2) == seq![above(root, 0), above(root, 2), above(root, 7)],
        notes_spec(root, ChordQuality::Sus4) == seq![above(root, 0), above(root, 5), above(root, 7)],
{
    assert(notes_spec(root, ChordQuality::Major) =~= seq![above(root, 0), above(root, 4), above(root, 7)]);
    assert(notes_spec(root, ChordQuality::Minor) =~= seq![above(root, 0), above(root, 3), above(root, 7)]);
    assert(notes_spec(root, ChordQuality::Dominant7) =~= seq![
        above(root, 0),
        above(root, 4),
        above(root, 7),
        above(root, 10),
    ]);
    assert(notes_spec(root, ChordQuality::Major7) =~= seq![
        above(root, 0),
        above(root, 4),
        above(root, 7),
        above(root, 11),
    ]);
    assert(notes_spec(root, ChordQuality::Minor7) =~= seq![
        above(root, 0),
        above(root, 3),
        above(root, 7),
        above(root, 10),
    ]);
    assert(notes_spec(root, ChordQuality::HalfDim7) =~= seq![
        above(root, 0),
        above(root, 3),
        above(root, 6),
        above(root, 10),
    ]);
    assert(notes_spec(root, ChordQuality::Dim7) =~= seq![
        above(root, 0),
        above(root, 3),
        above(root, 6),
        above(root, 9),
    ]);
    assert(notes_spec(root, ChordQuality::Augmented) =~= seq![above(root, 0), above(root, 4), above(root, 8)]);
    assert(notes_spec(root, ChordQuality::Sus2) =~= seq![above(root, 0), above(root, 2), above(root, 7)]);
    assert(notes_spec(root, ChordQuality::Sus4) =~= seq![above(root, 0), above(root, 5), above(root, 7)]);
}

/// The minor triad is the major triad with its third lowered a semitone, and
/// every quality's first note is the root.
pub proof fn lemma_minor_is_lowered_major(root: u8, q: ChordQuality)
    ensures
        notes_spec(root, ChordQuality::Minor)[0] == notes_spec(root, ChordQuality::Major)[0],
        notes_spec(root, ChordQuality::Minor)[2] == notes_spec(root, ChordQuality::Major)[2],
        (notes_spec(root, ChordQuality::Minor)[1] + 1) % 12 == notes_spec(root, ChordQuality::Major)[1],
        notes_spec(root, q)[0] == root % 12,
{
    lemma_chord_tones(root);
    assert(notes_spec(root, q)[0] == ((root + intervals_spec(q)[0]) % 12) as u8);
}

impl PartialEq for Chord {
    fn eq(&self, other: &Self) -> (r: bool) {
        self.root == other.root && self.quality == other.quality
    }
}

impl Eq for Chord {

}

impl vstd::std_specs::cmp::PartialEqSpecImpl for Chord {
    open spec fn obeys_eq_spec() -> bool {
        true
    }

    open spec fn eq_spec(&self, other: &Self) -> bool {
        self.root == other.root && self.quality == other.quality
    }
}

} // verus!
