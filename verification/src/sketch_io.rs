//! The solver's sketch as the library carries it: an opaque value that is
//! stored as bincode bytes and read back from them.

use vstd::prelude::*;
use arael_sketch_solver::Sketch;

verus! {

/// The solver's sketch; the library never looks inside it.
#[verifier::external_type_specification]
#[verifier::external_body]
pub struct ExSketch(Sketch);

/// `Sketch::new`: an empty sketch. Nothing is stated of its contents.
#[verifier::external_body]
pub fn empty_sketch() -> (s: Sketch) {
    Sketch::new()
}

/// The bytes `bincode::serialize` writes for a sketch: a function of the
/// sketch alone (its arenas write each slot's value and generation in slot
/// order; the one hash set is skipped by serde).
pub uninterp spec fn encoded(sketch: Sketch) -> Seq<u8>;

/// `bincode::serialize` of a sketch: the bytes are [`encoded`] of it. The
/// sketch's serde impls (derived, and the arena's and vectors' by hand)
/// write every sequence with its length and read back exactly what they
/// write, so bincode does not fail on the sketch and the bytes decode
/// again ([`decodes`]).
#[verifier::external_body]
pub fn encode_sketch(sketch: &Sketch) -> (bytes: Vec<u8>)
    ensures
        bytes@ == encoded(*sketch),
        decodes(bytes@),
{
    bincode::serialize(sketch).unwrap()
}

/// Whether `bincode::deserialize` reads a sketch out of `bytes`: a function
/// of the bytes alone.
pub uninterp spec fn decodes(bytes: Seq<u8>) -> bool;

/// `bincode::deserialize` into a sketch; `None` exactly when the bytes do
/// not decode ([`decodes`]). Which sketch comes back is not stated.
#[verifier::external_body]
pub fn decode_sketch(bytes: &Vec<u8>) -> (sketch: Option<Sketch>)
    ensures
        sketch is Some <==> decodes(bytes@),
{
    bincode::deserialize(bytes).ok()
}

} // verus!
