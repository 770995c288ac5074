use vstd::prelude::*;
use vstd::arithmetic::div_mod::{lemma_mod_self_0, lemma_small_mod};

verus! {

/// The index of a conveyor roll, counted from the near end of the belt.
#[derive(Clone, Copy, Debug, PartialEq, Eq, Structural)]
pub struct Roll(pub u8);

/// Number of straight track pieces on each of the two flat runs of the belt.
pub const TRACK_LINE_COUNT: usize = 10;

/// Number of track pieces on each of the two arcs round the rolls.
pub const TRACK_ARC_COUNT: usize = 6;

/// Number of rolls the belt runs over.
pub const ROLLS_COUNT: u8 = 2;

/// Pieces in a closed belt: two flat runs and two arcs.
pub open spec fn spec_track_count(line_count: nat, arc_count: nat) -> nat {
    2 * (line_count + arc_count)
}

/// Whether piece `i` of a belt of `count` pieces lies on one of the two arcs:
/// the last `arc_count` pieces of each half of the belt.
pub open spec fn spec_is_bend(i: int, count: int, arc_count: int) -> bool {
    ||| count / 2 - arc_count <= i < count / 2
    ||| count - arc_count <= i < count
}

/// How many of the first `n` pieces are bent: each bend turns the belt by
/// one angle step.
pub open spec fn spec_bends_before(n: nat, count: int, arc_count: int) -> nat
    decreases n,
{
    if n == 0 {
        0
    } else {
        spec_bends_before((n - 1) as nat, count, arc_count) + if spec_is_bend(
            n - 1,
            count,
            arc_count,
        ) {
            1nat
        } else {
            0nat
        }
    }
}

/// The number of angle steps piece `i` is turned by: the bends up to and
/// including piece `i`.
pub open spec fn spec_turn_steps(i: int, count: int, arc_count: int) -> nat {
    spec_bends_before((i + 1) as nat, count, arc_count)
}

/// The number of pieces of a belt with `line_count` straight pieces and
/// `arc_count` bent pieces per side.
pub fn track_count(line_count: usize, arc_count: usize) -> (count: usize)
    requires
        spec_track_count(line_count as nat, arc_count as nat) <= usize::MAX,
    ensures
        count == spec_track_count(line_count as nat, arc_count as nat),
{
    (arc_count + line_count) * 2
}

/// Whether piece `i` of a belt of `count` pieces is bent round a roll.
pub fn is_bend(i: usize, count: usize, arc_count: usize) -> (bend: bool)
    requires
        arc_count <= count / 2,
    ensures
        bend == spec_is_bend(i as int, count as int, arc_count as int),
{
    (count / 2 - arc_count <= i && i < count / 2) || (count - arc_count <= i && i < count)
}

/// The bends among the first `n` pieces of a belt with `line_count`
/// straight and `arc_count` bent pieces per side, written out per stretch:
/// the first flat run has none, the first arc adds one per piece, the second
/// flat run adds none, and the second arc one per piece again.
pub open spec fn spec_bends_closed_form(n: int, line_count: int, arc_count: int) -> int {
    let half = line_count + arc_count;
    if n <= line_count {
        0
    } else if n <= half {
        n - line_count
    } else if n <= half + line_count {
        arc_count
    } else {
        arc_count + n - half - line_count
    }
}

/// The bend count of every prefix of the belt follows the closed form above.
pub proof fn lemma_bends_closed_form(n: nat, line_count: nat, arc_count: nat)
    requires
        n <= spec_track_count(line_count, arc_count),
    ensures
        spec_bends_before(n, spec_track_count(line_count, arc_count) as int, arc_count as int)
            == spec_bends_closed_form(n as int, line_count as int, arc_count as int),
    decreases n,
{
    if n > 0 {
        lemma_bends_closed_form((n - 1) as nat, line_count, arc_count);
    }
}

/// The belt closes on itself: over all its pieces it bends `2 * arc_count`
/// times, and with an angle step of half a turn per `arc_count` that is one
/// full turn.
pub proof fn law_belt_closes(line_count: nat, arc_count: nat)
    ensures
        spec_bends_before(
            spec_track_count(line_count, arc_count),
            spec_track_count(line_count, arc_count) as int,
            arc_count as int,
        ) == 2 * arc_count,
{
    lemma_bends_closed_form(spec_track_count(line_count, arc_count), line_count, arc_count);
}

/// Half-way along, the belt has turned by exactly half a turn: it has gone
/// once round the first roll.
pub proof fn law_belt_turns_half_way(line_count: nat, arc_count: nat)
    ensures
        spec_bends_before(
            line_count + arc_count,
            spec_track_count(line_count, arc_count) as int,
            arc_count as int,
        ) == arc_count,
{
    lemma_bends_closed_form(line_count + arc_count, line_count, arc_count);
}

/// For each piece of the belt, the number of angle steps it is turned by:
/// the bends up to and including that piece, counted in order along the belt.
pub fn track_turn_steps(line_count: usize, arc_count: usize) -> (steps: Vec<usize>)
    requires
        spec_track_count(line_count as nat, arc_count as nat) <= usize::MAX,
    ensures
        steps.len() == spec_track_count(line_count as nat, arc_count as nat),
        forall|i: int|
            0 <= i < steps.len() ==> #[trigger] steps[i] == spec_turn_steps(
                i,
                steps.len() as int,
                arc_count as int,
            ),
{
    let count = track_count(line_count, arc_count);
    let mut steps: Vec<usize> = Vec::new();
    let mut turned: usize = 0;
    for i in 0..count
        invariant
            count == spec_track_count(line_count as nat, arc_count as nat),
            arc_count <= count / 2,
            steps.len() == i,
            turned == spec_bends_before(i as nat, count as int, arc_count as int),
            turned <= i,
            forall|j: int|
                0 <= j < i ==> #[trigger] steps[j] == spec_turn_steps(
                    j,
                    count as int,
                    arc_count as int,
                ),
    {
        if is_bend(i, count, arc_count) {
            turned = turned + 1;
        }
        steps.push(turned);
    }
    steps
}

/// The piece that follows piece `i` round a closed belt of `count` pieces.
pub open spec fn spec_next_piece(i: int, count: int) -> int {
    if i + 1 == count {
        0
    } else {
        i + 1
    }
}

/// The piece that precedes piece `j` round a closed belt of `count` pieces.
pub open spec fn spec_prev_piece(j: int, count: int) -> int {
    if j == 0 {
        count - 1
    } else {
        j - 1
    }
}

/// The joints that link the belt's pieces: piece `i` is hinged to the next
/// one, and the last piece to the first, so that the belt is a closed chain.
pub fn track_joints(count: usize) -> (joints: Vec<(usize, usize)>)
    ensures
        joints.len() == count,
        forall|i: int|
            0 <= i < count ==> #[trigger] joints[i] == (i as usize, spec_next_piece(
                i,
                count as int,
            ) as usize),
{
    let mut joints: Vec<(usize, usize)> = Vec::new();
    for i in 0..count
        invariant
            joints.len() == i,
            forall|j: int|
                0 <= j < i ==> #[trigger] joints[j] == (j as usize, spec_next_piece(
                    j,
                    count as int,
                ) as usize),
    {
        proof {
            if i + 1 == count {
                lemma_mod_self_0(count as int);
            } else {
                lemma_small_mod((i + 1) as nat, count as nat);
            }
        }
        joints.push((i, (i + 1) % count));
    }
    joints
}

/// The joints form one ring: every piece is hinged to exactly one following
/// piece and is followed by exactly one piece, its predecessor round the belt.
pub proof fn law_joints_form_ring(count: nat)
    requires
        count > 0,
    ensures
        forall|i: int| 0 <= i < count ==> 0 <= #[trigger] spec_next_piece(i, count as int) < count,
        forall|j: int|
            0 <= j < count ==> 0 <= #[trigger] spec_prev_piece(j, count as int) < count
                && spec_next_piece(spec_prev_piece(j, count as int), count as int) == j,
        forall|i1: int, i2: int|
            0 <= i1 < count && 0 <= i2 < count && #[trigger] spec_next_piece(i1, count as int)
                == #[trigger] spec_next_piece(i2, count as int) ==> i1 == i2,
{
}

/// The side a part of a mirrored pair goes on: the first of the pair on the
/// negative side, every other on the positive side.
pub open spec fn spec_side_sign(index: int) -> int {
    if index == 0 {
        -1
    } else {
        1
    }
}

/// The side a part of a mirrored pair goes on, as a sign: `-1` for index 0,
/// `1` otherwise (bearings of the rolls, the rims of a roll, the generator's
/// vane and rotor).
pub fn side_sign(index: usize) -> (sign: i8)
    ensures
        sign == spec_side_sign(index as int),
{
    if index == 0 {
        -1
    } else {
        1
    }
}

} // verus!
