//! The integer side of spectral score generation: note roles, the scale and
//! tempo of each spectral style, the pitch given to each eigenvalue, and the
//! metre rule for the drone.

use vstd::prelude::*;

use crate::{midi_name_spec, midi_to_name};

verus! {

/// The role a note plays in the spectral composition.
#[derive(Debug, Clone, Copy, PartialEq, Eq, Structural)]
pub enum NoteRole {
    /// λ₁ = 0 → bass drone / pedal tone.
    Drone,
    /// λ₂ → tonal center / root.
    Root,
    /// λ₃–λ₅ → chord tones (harmonic backbone).
    Chord,
    /// λ₆+ → overtones / color tones.
    Overtone,
}

/// Label of a role (the root label carries a trailing space).
pub open spec fn role_label_spec(r: NoteRole) -> Seq<char> {
    match r {
        NoteRole::Drone => seq!['d', 'r', 'o', 'n', 'e'],
        NoteRole::Root => seq!['r', 'o', 'o', 't', ' '],
        NoteRole::Chord => seq!['c', 'h', 'o', 'r', 'd'],
        NoteRole::Overtone => seq!['o', 'v', 'e', 'r'],
    }
}

/// Role of the note of eigenvalue `i` (eigenvalues in ascending order).
pub open spec fn note_role_spec(i: int) -> NoteRole {
    if i == 0 {
        NoteRole::Drone
    } else if i == 1 {
        NoteRole::Root
    } else if i <= 4 {
        NoteRole::Chord
    } else {
        NoteRole::Overtone
    }
}

impl NoteRole {
    /// Label of this role ("drone", "root ", "chord", "over").
    pub fn to_string(&self) -> (r: String)
        ensures
            r@ == role_label_spec(*self),
    {
        proof {
            reveal_strlit("drone");
            reveal_strlit("root ");
            reveal_strlit("chord");
            reveal_strlit("over");
        }
        match self {
            NoteRole::Drone => String::from_str("drone"),
            NoteRole::Root => String::from_str("root "),
            NoteRole::Chord => String::from_str("chord"),
            NoteRole::Overtone => String::from_str("over"),
        }
    }
}

/// Role of the note of eigenvalue `i`: the first is the drone, the second the
/// root, the next three chord tones, the rest overtones.
pub fn note_role(i: usize) -> (r: NoteRole)
    ensures
        r == note_role_spec(i as int),
{
    if i == 0 {
        NoteRole::Drone
    } else if i == 1 {
        NoteRole::Root
    } else if i <= 4 {
        NoteRole::Chord
    } else {
        NoteRole::Overtone
    }
}

/// The musical style chosen by the conservation ratio CR: above 0.7
/// consonant, above 0.3 jazz, otherwise atonal.
#[derive(Debug, Clone, Copy, PartialEq, Eq, Structural)]
pub enum SpectralStyle {
    Consonant,
    Jazz,
    Atonal,
}

/// MIDI root of every style (C4).
pub const ROOT_MIDI: u8 = 60;

/// Scale of a style, in semitones above the root.
pub open spec fn style_scale_spec(s: SpectralStyle) -> Seq<u8> {
    match s {
        SpectralStyle::Consonant => seq![0u8, 2, 4, 5, 7, 9, 11],
        SpectralStyle::Jazz => seq![0u8, 2, 4, 6, 7, 9, 10, 11],
        SpectralStyle::Atonal => seq![0u8, 1, 2, 3, 4, 5, 6, 7, 8, 9, 10, 11],
    }
}

/// Scale name of a style.
pub open spec fn style_scale_name_spec(s: SpectralStyle) -> Seq<char> {
    match s {
        SpectralStyle::Consonant => "Major"@,
        SpectralStyle::Jazz => "Jazz"@,
        SpectralStyle::Atonal => "Chromatic"@,
    }
}

/// Tempo of a style in beats per minute.
pub open spec fn style_bpm_spec(s: SpectralStyle) -> u32 {
    match s {
        SpectralStyle::Consonant => 100,
        SpectralStyle::Jazz => 130,
        SpectralStyle::Atonal => 160,
    }
}

/// Human-readable name of a style.
pub open spec fn style_name_spec(s: SpectralStyle) -> Seq<char> {
    match s {
        SpectralStyle::Consonant => "Consonant / Major"@,
        SpectralStyle::Jazz => "Jazz / Extended"@,
        SpectralStyle::Atonal => "Atonal / Experimental"@,
    }
}

impl SpectralStyle {
    /// Scale intervals (semitones from root): major, melodic minor / jazz, or chromatic.
    pub fn scale(&self) -> (r: Vec<u8>)
        ensures
            r@ == style_scale_spec(*self),
    {
        match self {
            SpectralStyle::Consonant => vec![0, 2, 4, 5, 7, 9, 11],
            SpectralStyle::Jazz => vec![0, 2, 4, 6, 7, 9, 10, 11],
            SpectralStyle::Atonal => vec![0, 1, 2, 3, 4, 5, 6, 7, 8, 9, 10, 11],
        }
    }

    /// Scale name: "Major", "Jazz" or "Chromatic".
    pub fn scale_name(&self) -> (r: String)
        ensures
            r@ == style_scale_name_spec(*self),
    {
        match self {
            SpectralStyle::Consonant => String::from_str("Major"),
            SpectralStyle::Jazz => String::from_str("Jazz"),
            SpectralStyle::Atonal => String::from_str("Chromatic"),
        }
    }

    /// Beats per minute: slow when consonant, fast when atonal.
    pub fn bpm(&self) -> (r: u32)
        ensures
            r == style_bpm_spec(*self),
    {
        match self {
            SpectralStyle::Consonant => 100,
            SpectralStyle::Jazz => 130,
            SpectralStyle::Atonal => 160,
        }
    }

    /// Human-readable style name.
    pub fn style_name(&self) -> (r: &'static str)
        ensures
            r@ == style_name_spec(*self),
    {
        match self {
            SpectralStyle::Consonant => "Consonant / Major",
            SpectralStyle::Jazz => "Jazz / Extended",
            SpectralStyle::Atonal => "Atonal / Experimental",
        }
    }
}

/// Key and scale name, e.g. "C4 Major".
pub open spec fn key_name_spec(root_midi: u8, scale_name: Seq<char>) -> Seq<char> {
    midi_name_spec(root_midi) + " "@ + scale_name
}

/// Key and scale name (e.g., "C4 Major").
pub fn key_name(root_midi: u8, scale_name: &str) -> (r: String)
    ensures
        r@ == key_name_spec(root_midi, scale_name@),
{
    let mut s = midi_to_name(root_midi);
    s.append(" ");
    s.append(scale_name);
    s
}

/// Scale degree used by a chord tone: the position, capped at the last degree.
pub open spec fn chord_degree(scale_len: int, pos: int) -> int {
    if pos < scale_len - 1 {
        pos
    } else {
        scale_len - 1
    }
}

/// Octave shift of overtone `i`: every three overtones climb an octave (the
/// count is taken modulo 256, as a `u8`).
pub open spec fn overtone_shift(i: int) -> int {
    ((i - 5) / 3) % 256
}

/// MIDI pitch of the note of eigenvalue `i`, before any `u8` limit: the drone
/// an octave below the root (not below 0), the root itself, chord tones on a
/// scale degree (the second and third a third and a fifth higher), and
/// overtones from an octave up, climbing an octave every three notes.
pub open spec fn note_pitch_spec(i: int, root: u8, scale: Seq<u8>, pos: int) -> int {
    if i == 0 {
        if root >= 12 {
            root - 12
        } else {
            0
        }
    } else if i == 1 {
        root as int
    } else if i <= 4 {
        root + scale[chord_degree(scale.len() as int, pos)] + if i == 3 {
            4int
        } else if i == 4 {
            7int
        } else {
            0int
        }
    } else {
        root + 12 + overtone_shift(i) * 12 + scale[pos % (scale.len() as int)]
    }
}

/// The pitch arithmetic of note `i` stays within `u8` at every step.
pub open spec fn note_pitch_fits(i: int, root: u8, scale: Seq<u8>, pos: int) -> bool {
    &&& scale.len() > 0
    &&& i >= 5 ==> overtone_shift(i) * 12 <= u8::MAX
    &&& note_pitch_spec(i, root, scale, pos) <= u8::MAX
}

/// MIDI pitch and role of the note of eigenvalue `i` (ascending order), given
/// the style's root and scale and the scale position `scale_pos` that the
/// eigenvalue's magnitude selects.
pub fn note_pitch(i: usize, root_midi: u8, scale: &Vec<u8>, scale_pos: usize) -> (r: (u8, NoteRole))
    requires
        note_pitch_fits(i as int, root_midi, scale@, scale_pos as int),
    ensures
        r.0 == note_pitch_spec(i as int, root_midi, scale@, scale_pos as int),
        r.1 == note_role_spec(i as int),
{
    if i == 0 {
        (root_midi.saturating_sub(12), NoteRole::Drone)
    } else if i == 1 {
        (root_midi, NoteRole::Root)
    } else if i <= 4 {
        let idx = if scale_pos < scale.len() - 1 {
            scale_pos
        } else {
            scale.len() - 1
        };
        let mut m = root_midi + scale[idx];
        if i == 3 {
            m = m + 4;
        }
        if i == 4 {
            m = m + 7;
        }
        (m, NoteRole::Chord)
    } else {
        let octave_shift = (((i - 5) / 3) % 256) as u8;
        let idx = scale_pos % scale.len();
        (root_midi + 12 + octave_shift * 12 + scale[idx], NoteRole::Overtone)
    }
}

/// Whether a note of role `role` may sound on `beat`: the drone only on every
/// fourth beat (0, 4, 8, ...), the other roles on any beat.
pub fn meter_allows(role: NoteRole, beat: u32) -> (r: bool)
    ensures
        r == !(role == NoteRole::Drone && beat % 4 != 0),
{
    !(role == NoteRole::Drone && beat % 4 != 0)
}

/// The pitch of each eigenvalue's note: the drone sits an octave below the
/// root (never below MIDI 0), the second note is the root itself, the first
/// chord tone is the root raised by the scale step at `pos` (at most the last
/// step), the next two chord tones sit a major third (4) and a perfect fifth
/// (7) above it, overtones 5, 6 and 7 lie in the octave above the root on step
/// `pos mod len`, and every later overtone sits exactly an octave above the
/// one three places before it.
pub proof fn lemma_note_pitches(root: u8, scale: Seq<u8>, pos: int, i: int)
    requires
        scale.len() > 0,
        0 <= pos,
    ensures
        note_pitch_spec(0, root, scale, pos) == if root >= 12 {
            root - 12
        } else {
            0
        },
        note_pitch_spec(1, root, scale, pos) == root,
        note_pitch_spec(2, root, scale, pos) == root + scale[if pos < scale.len() {
            pos
        } else {
            scale.len() - 1
        }],
        note_pitch_spec(3, root, scale, pos) == note_pitch_spec(2, root, scale, pos) + 4,
        note_pitch_spec(4, root, scale, pos) == note_pitch_spec(2, root, scale, pos) + 7,
        5 <= i <= 7 ==> note_pitch_spec(i, root, scale, pos) == root + 12 + scale[pos
            % (scale.len() as int)],
        5 <= i && (i - 5) / 3 < 255 ==> note_pitch_spec(i + 3, root, scale, pos)
            == note_pitch_spec(i, root, scale, pos) + 12,
{
    if 5 <= i {
        assert((i + 3 - 5) / 3 == (i - 5) / 3 + 1);
    }
}

/// The roles follow the eigenvalue order: drone, root, three chord tones,
/// then overtones.
pub proof fn lemma_note_roles(i: int)
    requires
        0 <= i,
    ensures
        i == 0 <==> note_role_spec(i) == NoteRole::Drone,
        i == 1 <==> note_role_spec(i) == NoteRole::Root,
        2 <= i <= 4 <==> note_role_spec(i) == NoteRole::Chord,
        i >= 5 <==> note_role_spec(i) == NoteRole::Overtone,
{
}

/// The styles: the consonant scale is the major scale, the atonal scale is
/// all twelve pitch classes in order, the jazz scale is the major scale with a
/// raised fourth (6) and an added minor seventh (10); every scale starts on
/// the root, and the tempo rises from consonant to jazz to atonal.
pub proof fn lemma_style_table()
    ensures
        style_scale_spec(SpectralStyle::Consonant) == crate::progression::mode_intervals_spec(
            crate::progression::KeyMode::Major,
        ),
        style_scale_spec(SpectralStyle::Atonal).len() == 12,
        forall|k: int| 0 <= k < 12 ==> #[trigger] style_scale_spec(SpectralStyle::Atonal)[k] == k,
        style_scale_spec(SpectralStyle::Jazz) == seq![0u8, 2, 4, 6, 7, 9, 10, 11],
        style_scale_spec(SpectralStyle::Consonant)[0] == 0 && style_scale_spec(SpectralStyle::Jazz)[0]
            == 0 && style_scale_spec(SpectralStyle::Atonal)[0] == 0,
        style_bpm_spec(SpectralStyle::Consonant) < style_bpm_spec(SpectralStyle::Jazz)
            < style_bpm_spec(SpectralStyle::Atonal),
{
}

} // verus!
