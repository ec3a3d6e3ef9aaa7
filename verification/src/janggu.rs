//! Janggu (Korean drum) sticks, faces and the input state of both sticks.
use vstd::prelude::*;

verus! {

/// The two sticks of a janggu player.
/// `Gungchae` is the left stick (궁채), `Yeolchae` the right one (열채).
#[derive(Debug, Clone, Copy, PartialEq, Eq, Structural)]
pub enum JangguStick {
    Gungchae,
    Yeolchae,
}

/// The two faces of the janggu that a stick can hit.
/// `Gungpyeon` is the left face (궁편), `Yeolpyeon` the right one (열편).
#[derive(Debug, Clone, Copy, PartialEq, Eq, Structural)]
pub enum JangguFace {
    Gungpyeon,
    Yeolpyeon,
}

/// Which face each stick is touching right now (`None`: touching nothing).
#[derive(Debug, Clone, Copy, PartialEq, Eq, Structural)]
pub struct JangguInputState {
    pub gungchae: Option<JangguFace>,
    pub yeolchae: Option<JangguFace>,
}

impl JangguFace {
    /// The face a note gets when its chart file does not name one.
    pub fn default() -> (r: JangguFace)
        ensures
            r == JangguFace::Gungpyeon,
    {
        JangguFace::Gungpyeon
    }
}

/// The face encoded by a pair of bits of a controller byte: the first bit
/// means the left face, the second the right face; the first bit wins.
pub open spec fn face_of_bits(first: bool, second: bool) -> Option<JangguFace> {
    if first {
        Some(JangguFace::Gungpyeon)
    } else if second {
        Some(JangguFace::Yeolpyeon)
    } else {
        None
    }
}

/// The input state a controller byte stands for: bits 1 and 2 give the face
/// of the left stick, bits 4 and 8 the face of the right stick.
pub open spec fn decode_janggu_bits(bits: u8) -> JangguInputState {
    JangguInputState {
        gungchae: face_of_bits(bits & 1 != 0, bits & 2 != 0),
        yeolchae: face_of_bits(bits & 4 != 0, bits & 8 != 0),
    }
}

/// The bits that encode one stick's face: `low` for the left face,
/// `high` for the right face, nothing when the stick touches no face.
pub open spec fn face_bits(face: Option<JangguFace>, low: u8, high: u8) -> u8 {
    match face {
        Some(JangguFace::Gungpyeon) => low,
        Some(JangguFace::Yeolpyeon) => high,
        None => 0,
    }
}

/// The controller byte that encodes an input state.
pub open spec fn encode_janggu_state(state: JangguInputState) -> u8 {
    face_bits(state.gungchae, 1, 2) | face_bits(state.yeolchae, 4, 8)
}

/// Decodes a controller byte into the input state it stands for.
pub fn decode_bits(bits: u8) -> (r: JangguInputState)
    ensures
        r == decode_janggu_bits(bits),
{
    JangguInputState {
        gungchae: if bits & 1 != 0 {
            Some(JangguFace::Gungpyeon)
        } else if bits & 2 != 0 {
            Some(JangguFace::Yeolpyeon)
        } else {
            None
        },
        yeolchae: if bits & 4 != 0 {
            Some(JangguFace::Gungpyeon)
        } else if bits & 8 != 0 {
            Some(JangguFace::Yeolpyeon)
        } else {
            None
        },
    }
}

/// Decoding an encoded input state gives that state back.
pub proof fn lemma_decode_encode(state: JangguInputState)
    ensures
        decode_janggu_bits(encode_janggu_state(state)) == state,
{
    let a = face_bits(state.gungchae, 1, 2);
    let b = face_bits(state.yeolchae, 4, 8);
    assert((a == 0u8 || a == 1u8 || a == 2u8) && (b == 0u8 || b == 4u8 || b == 8u8) ==> {
        &&& ((a | b) & 1 != 0) == (a == 1u8)
        &&& ((a | b) & 2 != 0) == (a == 2u8)
        &&& ((a | b) & 4 != 0) == (b == 4u8)
        &&& ((a | b) & 8 != 0) == (b == 8u8)
    }) by (bit_vector);
}

/// Encoding a decoded byte keeps exactly the bits that decoding reads: the
/// low four bits, with bit 2 cleared where bit 1 is set and bit 8 cleared
/// where bit 4 is set.
pub proof fn lemma_encode_decode(bits: u8)
    ensures
        encode_janggu_state(decode_janggu_bits(bits)) == (if bits & 1 != 0 { 1u8 } else {
            bits & 2
        }) | (if bits & 4 != 0 { 4u8 } else { bits & 8 }),
{
    assert(bits & 1 == 0 ==> (bits & 2 != 0) == (bits & 2 == 2)) by (bit_vector);
    assert(bits & 4 == 0 ==> (bits & 8 != 0) == (bits & 8 == 8)) by (bit_vector);
    assert((bits & 2 == 0 || bits & 2 == 2) && (bits & 8 == 0 || bits & 8 == 8)) by (bit_vector);
}

} // verus!
