use conservation_composer::midi_to_name;
use conservation_composer::score::{
    key_name, meter_allows, note_pitch, note_role, NoteRole, SpectralStyle, ROOT_MIDI,
};

#[test]
fn midi_names() {
    assert_eq!(midi_to_name(60), "C4");
    assert_eq!(midi_to_name(48), "C3");
    assert_eq!(midi_to_name(64), "E4");
    assert_eq!(midi_to_name(0), "C-1");
    assert_eq!(midi_to_name(11), "B-1");
    assert_eq!(midi_to_name(127), "G9");
    assert_eq!(midi_to_name(255), "D#20");
}

#[test]
fn roles_by_index() {
    assert_eq!(note_role(0), NoteRole::Drone);
    assert_eq!(note_role(1), NoteRole::Root);
    assert_eq!(note_role(2), NoteRole::Chord);
    assert_eq!(note_role(4), NoteRole::Chord);
    assert_eq!(note_role(5), NoteRole::Overtone);
    assert_eq!(NoteRole::Drone.to_string(), "drone");
    assert_eq!(NoteRole::Root.to_string(), "root ");
    assert_eq!(NoteRole::Chord.to_string(), "chord");
    assert_eq!(NoteRole::Overtone.to_string(), "over");
}

#[test]
fn styles() {
    assert_eq!(SpectralStyle::Consonant.scale(), vec![0, 2, 4, 5, 7, 9, 11]);
    assert_eq!(SpectralStyle::Jazz.scale().len(), 8);
    assert_eq!(SpectralStyle::Atonal.scale().len(), 12);
    assert_eq!(SpectralStyle::Consonant.bpm(), 100);
    assert_eq!(SpectralStyle::Jazz.bpm(), 130);
    assert_eq!(SpectralStyle::Atonal.bpm(), 160);
    assert_eq!(SpectralStyle::Jazz.scale_name(), "Jazz");
    assert!(SpectralStyle::Consonant.style_name().contains("Major"));
    assert!(SpectralStyle::Atonal.style_name().contains("Atonal"));
    assert_eq!(SpectralStyle::Jazz.style_name(), "Jazz / Extended");
}

#[test]
fn key_names() {
    assert_eq!(key_name(ROOT_MIDI, "Major"), "C4 Major");
    assert!(key_name(ROOT_MIDI, "Chromatic").contains("C"));
}

#[test]
fn pitches_by_index() {
    let major = SpectralStyle::Consonant.scale();
    assert_eq!(note_pitch(0, 60, &major, 0), (48, NoteRole::Drone));
    assert_eq!(note_pitch(0, 5, &major, 0), (0, NoteRole::Drone));
    assert_eq!(note_pitch(1, 60, &major, 3), (60, NoteRole::Root));
    // Chord tones: degree capped at the last one, then +4 / +7.
    assert_eq!(note_pitch(2, 60, &major, 2), (64, NoteRole::Chord));
    assert_eq!(note_pitch(2, 60, &major, 99), (71, NoteRole::Chord));
    assert_eq!(note_pitch(3, 60, &major, 0), (64, NoteRole::Chord));
    assert_eq!(note_pitch(4, 60, &major, 1), (69, NoteRole::Chord));
    // Overtones: an octave up, one more octave every three notes, degree mod len.
    assert_eq!(note_pitch(5, 60, &major, 8), (74, NoteRole::Overtone));
    assert_eq!(note_pitch(8, 60, &major, 0), (84, NoteRole::Overtone));
}

#[test]
fn drone_metre() {
    assert!(meter_allows(NoteRole::Drone, 0));
    assert!(!meter_allows(NoteRole::Drone, 3));
    assert!(meter_allows(NoteRole::Drone, 8));
    assert!(meter_allows(NoteRole::Chord, 3));
}
