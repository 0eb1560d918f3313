use conservation_composer::chord::{Chord, ChordQuality};
use conservation_composer::error::ComposeError;

#[test]
fn parse_major() {
    let c = Chord::parse("C").unwrap();
    assert_eq!(c.root, 0);
    assert_eq!(c.quality, ChordQuality::Major);
}

#[test]
fn parse_minor7() {
    let c = Chord::parse("Dm7").unwrap();
    assert_eq!(c.root, 2);
    assert_eq!(c.quality, ChordQuality::Minor7);
}

#[test]
fn parse_sharp() {
    let c = Chord::parse("F#m7b5").unwrap();
    assert_eq!(c.root, 6);
    assert_eq!(c.quality, ChordQuality::HalfDim7);
}

#[test]
fn parse_flat() {
    let c = Chord::parse("Bb7").unwrap();
    assert_eq!(c.root, 10);
    assert_eq!(c.quality, ChordQuality::Dominant7);
}

#[test]
fn display_roundtrip() {
    let pairs = vec![
        ("C", "C"),
        ("Dm", "Dm"),
        ("G7", "G7"),
        ("Cmaj7", "Cmaj7"),
        ("F#m7b5", "F#m7b5"),
    ];
    for (input, expected) in pairs {
        assert_eq!(Chord::parse(input).unwrap().to_string(), expected);
    }
}

#[test]
fn notes_of_cmaj7() {
    let c = Chord::parse("Cmaj7").unwrap();
    assert_eq!(c.notes(), vec![0, 4, 7, 11]);
}

#[test]
fn notes_of_d_dim7() {
    let c = Chord::new(2, ChordQuality::Dim7, 4);
    assert_eq!(c.notes(), vec![2, 5, 8, 11]);
}

#[test]
fn voice_leading_ii_v_i() {
    // Classic ii-V-I in C: Dm7 → G7 → Cmaj7 — should have low VL distance
    let dm7 = Chord::parse("Dm7").unwrap();
    let g7 = Chord::parse("G7").unwrap();
    let cmaj7 = Chord::parse("Cmaj7").unwrap();
    let d1 = dm7.voice_leading_distance(&g7);
    let d2 = g7.voice_leading_distance(&cmaj7);
    assert!(d1 <= 6, "ii→V VL distance = {d1}, expected ≤ 6");
    assert!(d2 <= 6, "V→I VL distance = {d2}, expected ≤ 6");
}

#[test]
fn parse_error_unknown() {
    assert!(Chord::parse("X7").is_err());
    assert!(Chord::parse("").is_err());
}

fn parse_message(name: &str) -> String {
    match Chord::parse(name) {
        Err(ComposeError::ParseError(m)) => m,
        other => panic!("expected a parse error, got {:?}", other),
    }
}

#[test]
fn parse_error_messages() {
    assert_eq!(parse_message(""), "empty chord name");
    assert_eq!(parse_message("   "), "empty chord name");
    assert_eq!(parse_message("#C"), "invalid chord: #C");
    assert_eq!(parse_message(" X7 "), "unknown root: X7");
    assert_eq!(parse_message("Cmaj9"), "unknown quality: maj9");
    assert_eq!(parse_message("C##"), "unknown quality: #");
    assert_eq!(parse_message("éC"), "unknown root: éC");
}

#[test]
fn parse_trims_whitespace_and_alternatives() {
    let c = Chord::parse("  Dm7\t\n").unwrap();
    assert_eq!((c.root, c.quality, c.duration_beats), (2, ChordQuality::Minor7, 4));
    assert_eq!(Chord::parse("CM7").unwrap().quality, ChordQuality::Major7);
    assert_eq!(Chord::parse("E-7b5").unwrap().quality, ChordQuality::HalfDim7);
    assert_eq!(Chord::parse("G+").unwrap().quality, ChordQuality::Augmented);
    assert_eq!(Chord::parse("Ab").unwrap().root, 8);
    assert_eq!(Chord::parse("Cb").unwrap().root, 11);
    assert_eq!(Chord::parse("B#").unwrap().root, 0);
    assert_eq!(Chord::parse("Asus4").unwrap().quality, ChordQuality::Sus4);
    assert_eq!(Chord::parse("Ddim7").unwrap().quality, ChordQuality::Dim7);
}

#[test]
fn name_then_parse_gives_back_root_and_quality() {
    let qualities = [
        ChordQuality::Major,
        ChordQuality::Minor,
        ChordQuality::Dominant7,
        ChordQuality::Major7,
        ChordQuality::Minor7,
        ChordQuality::HalfDim7,
        ChordQuality::Dim7,
        ChordQuality::Augmented,
        ChordQuality::Sus2,
        ChordQuality::Sus4,
    ];
    for root in 0..12u8 {
        for q in qualities {
            let c = Chord::new(root, q, 3);
            let back = Chord::parse(&c.to_string()).unwrap();
            assert_eq!(back, c);
            assert_eq!(back.root, root);
            assert_eq!(back.quality, q);
        }
    }
}

#[test]
fn new_reduces_root() {
    let c = Chord::new(26, ChordQuality::Minor, 2);
    assert_eq!(c.root, 2);
    assert_eq!(c.duration_beats, 2);
}

#[test]
fn intervals_and_names() {
    assert_eq!(ChordQuality::Augmented.intervals(), vec![0, 4, 8]);
    assert_eq!(ChordQuality::Sus2.intervals(), vec![0, 2, 7]);
    assert_eq!(Chord::new(10, ChordQuality::Sus2, 4).to_string(), "A#sus2");
    assert_eq!(Chord::new(8, ChordQuality::Dim7, 4).to_string(), "G#dim7");
}

#[test]
fn voice_leading_exact_values() {
    let dm7 = Chord::parse("Dm7").unwrap();
    let g7 = Chord::parse("G7").unwrap();
    let cmaj7 = Chord::parse("Cmaj7").unwrap();
    assert_eq!(dm7.voice_leading_distance(&g7), 3);
    assert_eq!(g7.voice_leading_distance(&cmaj7), 3);
    // A tritone away: every note of C major moves 6 semitones at most.
    let c = Chord::new(0, ChordQuality::Major, 4);
    let fs = Chord::new(6, ChordQuality::Major, 4);
    assert_eq!(c.voice_leading_distance(&fs), 4);
}

#[test]
fn voice_leading_to_itself_is_zero() {
    for root in 0..12u8 {
        let c = Chord::new(root, ChordQuality::HalfDim7, 4);
        assert_eq!(c.voice_leading_distance(&c), 0);
    }
}

#[test]
fn equality_ignores_duration() {
    let a = Chord::new(5, ChordQuality::Major7, 2);
    let b = Chord::new(5, ChordQuality::Major7, 8);
    let c = Chord::new(5, ChordQuality::Minor7, 2);
    assert!(a == b);
    assert!(a != c);
}

#[test]
fn error_messages() {
    assert_eq!(ComposeError::ParseError("x".to_string()).to_string(), "parse error: x");
    assert_eq!(
        ComposeError::InsufficientChords.to_string(),
        "progression needs at least two chords"
    );
    assert_eq!(ComposeError::SpectralDegenerate.to_string(), "degenerate spectral matrix");
    assert_eq!(
        ComposeError::NoSolution.to_string(),
        "no valid progression found for constraints"
    );
}
