use conservation_composer::chord::ChordQuality;
use conservation_composer::chord::ChordQuality::{Dominant7, Major, Major7, Minor, Minor7};
use conservation_composer::compose::{
    baroque_initial, free_initial, generate_initial, initial_chord_count, jazz_initial,
    ComposeStyle,
};
use conservation_composer::error::ComposeError;
use conservation_composer::laplacian::{transition_counts, transition_distances};
use conservation_composer::chord::Chord;
use conservation_composer::progression::{ChordProgression, KeySignature};

#[test]
fn chord_count_of_bars() {
    assert!(matches!(initial_chord_count(0), Err(ComposeError::InsufficientChords)));
    assert_eq!(initial_chord_count(1).unwrap(), 2);
    assert_eq!(initial_chord_count(8).unwrap(), 16);
}

#[test]
fn jazz_cycle_in_c() {
    let p = jazz_initial(KeySignature::major(0), 12);
    let got: Vec<(u8, ChordQuality)> = p.chords.iter().map(|c| (c.root, c.quality)).collect();
    assert_eq!(
        got,
        vec![
            (2, Minor7), (7, Dominant7), (0, Major7),
            (2, Minor7), (1, Dominant7), (0, Major7),
            (9, Minor7), (2, Minor7), (7, Dominant7), (0, Major7),
            (2, Minor7), (7, Dominant7),
        ]
    );
    assert!(p.chords.iter().all(|c| c.duration_beats == 2));
}

#[test]
fn jazz_cycle_in_g() {
    let p = jazz_initial(KeySignature::major(7), 3);
    let got: Vec<u8> = p.chords.iter().map(|c| c.root).collect();
    assert_eq!(got, vec![9, 2, 7]);
    assert_eq!(p.key, KeySignature::major(7));
}

#[test]
fn baroque_cycle_in_a_minor_key() {
    let key = KeySignature::minor(9);
    let p = baroque_initial(key, 8);
    let got: Vec<(u8, ChordQuality)> = p.chords.iter().map(|c| (c.root, c.quality)).collect();
    assert_eq!(
        got,
        vec![(9, Major), (2, Major), (4, Major), (9, Major), (9, Major), (6, Minor), (2, Major), (9, Major)]
    );
}

#[test]
fn free_start_is_diatonic_and_deterministic() {
    let key = KeySignature::major(5);
    let a = free_initial(key, 8);
    let b = generate_initial(ComposeStyle::Free, key, 8);
    assert_eq!(a.chords.len(), 8);
    let scale = key.scale();
    for (x, y) in a.chords.iter().zip(b.chords.iter()) {
        assert_eq!((x.root, x.quality), (y.root, y.quality));
        assert!(scale.contains(&x.root));
        assert!(matches!(
            x.quality,
            ChordQuality::Major7 | ChordQuality::Minor7 | ChordQuality::Dominant7 | ChordQuality::HalfDim7
        ));
    }
    // First chord: seed = 5*31 + 8*17 + 7, one LCG step picks the degree.
    let seed: u64 = 5 * 31 + 8 * 17 + 7;
    let s1 = seed.wrapping_mul(6364136223846793005).wrapping_add(1);
    let s2 = s1.wrapping_mul(6364136223846793005).wrapping_add(1);
    assert_eq!(a.chords[0].root, scale[(s1 as usize) % 7]);
    let q = [ChordQuality::Major7, ChordQuality::Minor7, ChordQuality::Dominant7, ChordQuality::HalfDim7];
    assert_eq!(a.chords[0].quality, q[(s2 as usize) % 4]);
}

fn ii_v_i_c() -> ChordProgression {
    let mut p = ChordProgression::new(KeySignature::major(0));
    p.push(Chord::parse("Dm7").unwrap());
    p.push(Chord::parse("G7").unwrap());
    p.push(Chord::parse("Cmaj7").unwrap());
    p
}

#[test]
fn transition_distances_need_two_chords() {
    let mut p = ChordProgression::new(KeySignature::major(0));
    p.push(Chord::new(0, ChordQuality::Major, 4));
    assert!(matches!(transition_distances(&p), Err(ComposeError::InsufficientChords)));
    assert!(matches!(transition_counts(&p), Err(ComposeError::InsufficientChords)));
}

#[test]
fn transition_distances_and_counts() {
    let p = ii_v_i_c();
    assert_eq!(transition_distances(&p).unwrap(), vec![3, 3]);
    let t = transition_counts(&p).unwrap();
    assert_eq!(t.len(), 3);
    assert_eq!(t, vec![vec![0, 4, 0], vec![0, 0, 4], vec![0, 0, 0]]);
    // Same chord twice: distance 0 is raised to 1.
    let mut q = ChordProgression::new(KeySignature::major(0));
    q.push(Chord::new(0, ChordQuality::Major, 4));
    q.push(Chord::new(0, ChordQuality::Major, 4));
    assert_eq!(transition_distances(&q).unwrap(), vec![1]);
    assert_eq!(transition_counts(&q).unwrap(), vec![vec![0, 12], vec![0, 0]]);
}
