//! The side-to-side wiggle of a bubble rising to the surface.

use vstd::prelude::*;
use crate::random::{random_i32_in, RandomSource};

verus! {

/// The sideways step a bubble takes on a tick.
#[derive(PartialEq, Eq, Structural, Clone, Copy, Debug)]
pub enum Wiggle {
    Left,
    Right,
    Still,
}

/// The number of faces of the die rolled for a bubble's wiggle.
pub const WIGGLE_FACES: i32 = 5;

/// The wiggle for a die roll: the lowest face steps left, the highest steps
/// right, the others stay put.
pub open spec fn wiggle_for(roll: int) -> Wiggle {
    if roll == 0 {
        Wiggle::Left
    } else if roll == WIGGLE_FACES - 1 {
        Wiggle::Right
    } else {
        Wiggle::Still
    }
}

/// The wiggle rule is balanced on the die: mirroring a face (`f` to
/// `WIGGLE_FACES - 1 - f`) turns a left step into a right step and keeps a
/// still face still, and exactly one face steps each way. On a fair die the
/// bubble is thus as likely to step left as right.
pub proof fn lemma_wiggle_balanced(face: int, other: int)
    requires
        0 <= face < WIGGLE_FACES,
        0 <= other < WIGGLE_FACES,
    ensures
        wiggle_for(face) == Wiggle::Left <==> wiggle_for(WIGGLE_FACES - 1 - face) == Wiggle::Right,
        wiggle_for(face) == Wiggle::Still <==> wiggle_for(WIGGLE_FACES - 1 - face)
            == Wiggle::Still,
        wiggle_for(face) == Wiggle::Left && wiggle_for(other) == Wiggle::Left ==> face == other,
        wiggle_for(face) == Wiggle::Right && wiggle_for(other) == Wiggle::Right ==> face == other,
        exists|f: int| 0 <= f < WIGGLE_FACES && wiggle_for(f) == Wiggle::Left,
{
    assert(wiggle_for(0) == Wiggle::Left);
}

/// The wiggle for a die roll.
pub fn wiggle_from_roll(roll: i32) -> (r: Wiggle)
    ensures
        r == wiggle_for(roll as int),
{
    if roll == 0 {
        Wiggle::Left
    } else if roll == WIGGLE_FACES - 1 {
        Wiggle::Right
    } else {
        Wiggle::Still
    }
}

/// Rolls the die for a bubble's wiggle and returns the wiggle for the face
/// that came up. The face is rand's draw from `0..WIGGLE_FACES`, used as it
/// is; which face comes up is up to the generator.
pub fn roll_wiggle(source: &mut RandomSource) -> (r: Wiggle)
    ensures
        exists|roll: int| 0 <= roll < WIGGLE_FACES && r == wiggle_for(roll),
{
    let roll = random_i32_in(&mut source.0, 0, WIGGLE_FACES);
    wiggle_from_roll(roll)
}

} // verus!
