use conservation_composer::annealer::{propose_neighbor, voice_leading_excess, SimpleRng};
use conservation_composer::chord::{Chord, ChordQuality};
use conservation_composer::progression::{ChordProgression, KeySignature};

#[test]
fn rng_deterministic() {
    let mut r1 = SimpleRng::new(42);
    let mut r2 = SimpleRng::new(42);
    for _ in 0..10 {
        assert_eq!(r1.next_u64(), r2.next_u64());
    }
}

fn xorshift(mut x: u64) -> u64 {
    x ^= x << 13;
    x ^= x >> 7;
    x ^= x << 17;
    x
}

#[test]
fn rng_xorshift_values() {
    let mut r = SimpleRng::new(1);
    assert_eq!(r.next_u64(), xorshift(1));
    assert_eq!(r.next_u64(), xorshift(xorshift(1)));
    // A zero seed behaves like seed one.
    let mut z = SimpleRng::new(0);
    assert_eq!(z.next_u64(), xorshift(1));
    let mut b = SimpleRng::new(42);
    assert_eq!(b.next_u32(12), (xorshift(42) % 12) as u32);
    assert_eq!(b.next_usize(7), (xorshift(xorshift(42)) % 7) as usize);
}

#[test]
fn rng_never_yields_zero() {
    let mut r = SimpleRng::new(u64::MAX);
    for _ in 0..1000 {
        assert_ne!(r.next_u64(), 0);
    }
}

fn sample() -> ChordProgression {
    let mut p = ChordProgression::new(KeySignature::major(0));
    for name in ["Dm7", "G7", "Cmaj7", "Fmaj7", "Bm7b5", "E7", "Am7"] {
        p.push(Chord::parse(name).unwrap());
    }
    p
}

#[test]
fn neighbor_changes_at_most_two_chords() {
    let p = sample();
    let mut rng = SimpleRng::new(42);
    for _ in 0..200 {
        let q = propose_neighbor(&mut rng, &p);
        assert_eq!(q.chords.len(), p.chords.len());
        assert_eq!(q.key, p.key);
        let changed = q
            .chords
            .iter()
            .zip(p.chords.iter())
            .filter(|(a, b)| (a.root, a.quality, a.duration_beats) != (b.root, b.quality, b.duration_beats))
            .count();
        assert!(changed <= 2);
        for c in &q.chords {
            assert!(c.root < 12);
            assert!((1..=8).contains(&c.duration_beats));
        }
    }
}

#[test]
fn neighbor_single_chord_never_swaps() {
    let mut p = ChordProgression::new(KeySignature::major(0));
    p.push(Chord::new(3, ChordQuality::Minor, 8));
    let mut rng = SimpleRng::new(7);
    for _ in 0..100 {
        let q = propose_neighbor(&mut rng, &p);
        assert_eq!(q.chords.len(), 1);
    }
}

#[test]
fn voice_leading_excess_values() {
    let p = sample();
    // With no allowance the excess is the total voice-leading distance.
    let total: u128 = p
        .chords
        .windows(2)
        .map(|w| w[0].voice_leading_distance(&w[1]) as u128)
        .sum();
    assert_eq!(voice_leading_excess(&p, 0), total);
    assert_eq!(voice_leading_excess(&p, 24), 0);
    let single = ChordProgression::new(KeySignature::major(0));
    assert_eq!(voice_leading_excess(&single, 0), 0);
}
