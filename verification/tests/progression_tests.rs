use conservation_composer::chord::{Chord, ChordQuality};
use conservation_composer::progression::{ChordProgression, KeyMode, KeySignature};

#[test]
fn key_scale_c_major() {
    let key = KeySignature::major(0);
    assert_eq!(key.scale(), vec![0, 2, 4, 5, 7, 9, 11]);
}

#[test]
fn key_scale_a_minor() {
    let key = KeySignature::minor(9);
    assert_eq!(key.scale(), vec![9, 11, 0, 2, 4, 5, 7]);
}

#[test]
fn progression_transpose() {
    let mut p = ChordProgression::new(KeySignature::major(0));
    p.push(Chord::new(0, ChordQuality::Major, 4));
    let p2 = p.transpose(2);
    assert_eq!(p2.key.root, 2);
    assert_eq!(p2.chords[0].root, 2);
}

#[test]
fn total_beats() {
    let mut p = ChordProgression::new(KeySignature::major(0));
    p.push(Chord::new(0, ChordQuality::Major, 4));
    p.push(Chord::new(5, ChordQuality::Major, 2));
    assert_eq!(p.total_beats() as f64, 6.0);
}

#[test]
fn detect_key_ii_v_i() {
    let mut p = ChordProgression::new(KeySignature::major(0));
    p.push(Chord::parse("Dm7").unwrap());
    p.push(Chord::parse("G7").unwrap());
    p.push(Chord::parse("Cmaj7").unwrap());
    let detected = p.detect_key();
    assert_eq!(detected.root, 0);
    assert_eq!(detected.mode, KeyMode::Major);
}

#[test]
fn display_key() {
    assert_eq!(KeySignature::major(0).to_string(), "C");
    assert_eq!(KeySignature::minor(9).to_string(), "Am");
}

#[test]
fn key_constructors_reduce_root() {
    let k = KeySignature::minor(21);
    assert_eq!(k.root, 9);
    assert_eq!(k.mode, KeyMode::Minor);
    assert_eq!(KeySignature::major(13).to_string(), "C#");
}

#[test]
fn transpose_down_and_wrapping() {
    let mut p = ChordProgression::new(KeySignature::minor(2));
    p.push(Chord::new(1, ChordQuality::Minor7, 3));
    p.push(Chord::new(11, ChordQuality::Dominant7, 1));
    let down = p.transpose(-3);
    assert_eq!(down.key.root, 11);
    assert_eq!(down.key.mode, KeyMode::Minor);
    assert_eq!(down.chords[0].root, 10);
    assert_eq!(down.chords[0].quality, ChordQuality::Minor7);
    assert_eq!(down.chords[0].duration_beats, 3);
    assert_eq!(down.chords[1].root, 8);
    let up = p.transpose(25);
    assert_eq!(up.chords[1].root, 0);
}

#[test]
fn transpose_there_and_back() {
    let mut p = ChordProgression::new(KeySignature::major(4));
    for (r, q) in [(0u8, ChordQuality::Major7), (7, ChordQuality::Sus4), (11, ChordQuality::Dim7)] {
        p.push(Chord::new(r, q, 2));
    }
    for s in -100i8..=100 {
        let back = p.transpose(s).transpose(-s);
        assert_eq!(back.key, p.key);
        assert_eq!(back.chords.len(), p.chords.len());
        for (a, b) in back.chords.iter().zip(p.chords.iter()) {
            assert_eq!((a.root, a.quality, a.duration_beats), (b.root, b.quality, b.duration_beats));
        }
    }
}

#[test]
fn len_and_is_empty() {
    let mut p = ChordProgression::new(KeySignature::major(0));
    assert!(p.is_empty());
    assert_eq!(p.len(), 0);
    assert_eq!(p.total_beats(), 0);
    p.push(Chord::new(0, ChordQuality::Major, 4));
    assert!(!p.is_empty());
    assert_eq!(p.len(), 1);
}

#[test]
fn pitch_class_counts_of_ii_v_i() {
    let mut p = ChordProgression::new(KeySignature::major(0));
    p.push(Chord::parse("Dm7").unwrap());
    p.push(Chord::parse("G7").unwrap());
    p.push(Chord::parse("Cmaj7").unwrap());
    // Dm7 = D F A C, G7 = G B D F, Cmaj7 = C E G B
    assert_eq!(p.pitch_class_counts(), vec![2, 0, 2, 0, 1, 2, 0, 2, 0, 1, 0, 2]);
}

#[test]
fn detect_key_prefers_first_best() {
    // An empty progression covers nothing: C major is the first candidate.
    let p = ChordProgression::new(KeySignature::minor(5));
    assert_eq!(p.detect_key(), KeySignature::major(0));
    // A minor triad: A C E is covered by C major (and by others later on).
    let mut q = ChordProgression::new(KeySignature::major(0));
    q.push(Chord::new(9, ChordQuality::Minor, 4));
    assert_eq!(q.detect_key(), KeySignature::major(0));
    // F# major triad (F# A# C#): first full cover is C# major.
    let mut r = ChordProgression::new(KeySignature::major(0));
    r.push(Chord::new(6, ChordQuality::Major, 4));
    assert_eq!(r.detect_key(), KeySignature::major(1));
}
