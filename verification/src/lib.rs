//! Integer core of a composer that turns graph spectra and chord grammars into music.

use vstd::prelude::*;

use crate::chord::{pitch_class_name, pitch_name_spec};
use crate::text::{int_decimal, push_decimal};

pub mod chord;
pub mod text;
pub mod error;
pub mod progression;
pub mod annealer;
pub mod compose;
pub mod laplacian;
pub mod graph;
pub mod score;

verus! {

/// Scientific pitch name of a MIDI note number: pitch-class name followed by
/// the octave, `midi / 12 - 1` (60 is "C4").
pub open spec fn midi_name_spec(midi: u8) -> Seq<char> {
    pitch_name_spec((midi % 12) as int) + int_decimal(midi / 12 - 1)
}

/// Note name from MIDI number (e.g., 60 → "C4").
pub fn midi_to_name(midi: u8) -> (r: String)
    ensures
        r@ == midi_name_spec(midi),
{
    let mut s = String::new();
    s.append(pitch_class_name(midi % 12));
    let octave_plus_one = midi / 12;
    if octave_plus_one == 0 {
        proof {
            reveal_strlit("-1");
        }
        s.append("-1");
        proof {
            reveal_with_fuel(crate::text::nat_decimal, 1);
            assert(s@ =~= midi_name_spec(midi));
        }
    } else {
        push_decimal(&mut s, octave_plus_one - 1);
    }
    s
}

} // verus!
