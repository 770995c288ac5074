use vstd::prelude::*;
use vstd::arithmetic::div_mod::{lemma_add_mod_noop_right, lemma_mod_add_multiples_vanish, lemma_small_mod};

verus! {

/// The camera target that follows target `index` in a cycle of `count`
/// targets.
pub open spec fn spec_next_target(index: int, count: int) -> int {
    (index + 1) % count
}

/// The camera target reached from target `index` after `presses` presses of
/// the switch key.
pub open spec fn spec_after_presses(index: int, count: int, presses: nat) -> int
    decreases presses,
{
    if presses == 0 {
        index
    } else {
        spec_next_target(spec_after_presses(index, count, (presses - 1) as nat), count)
    }
}

/// The camera target that follows target `index` when there are `count`
/// targets: the next one, and after the last the first again.
pub fn next_target_index(index: usize, count: usize) -> (next: usize)
    requires
        count > 0,
        index < usize::MAX,
    ensures
        next == spec_next_target(index as int, count as int),
        next < count,
{
    (index + 1) % count
}

/// One frame of the camera switch: when the switch key was just pressed,
/// the camera moves on to the next target, which is returned to be shown;
/// otherwise the current target stays and nothing is shown anew.
pub fn switch_target(pressed: bool, index: usize, count: usize) -> (step: (usize, Option<usize>))
    requires
        pressed ==> count > 0 && index < usize::MAX,
    ensures
        pressed ==> step.0 == spec_next_target(index as int, count as int) && step.1 == Some(
            step.0,
        ) && step.0 < count,
        !pressed ==> step == (index, None::<usize>),
{
    if pressed {
        let next = next_target_index(index, count);
        (next, Some(next))
    } else {
        (index, None)
    }
}

/// After any number of presses the camera is on target `(index + presses)`
/// modulo the number of targets.
pub proof fn lemma_after_presses_closed_form(index: nat, count: nat, presses: nat)
    requires
        index < count,
    ensures
        spec_after_presses(index as int, count as int, presses) == ((index + presses) as int)
            % (count as int),
    decreases presses,
{
    if presses > 0 {
        lemma_after_presses_closed_form(index, count, (presses - 1) as nat);
        let x: int = index + presses - 1;
        lemma_add_mod_noop_right(1, x, count as int);
        assert(spec_after_presses(index as int, count as int, presses) == (x % (count as int) + 1)
            % (count as int));
        assert(1 + x == index + presses);
    } else {
        lemma_small_mod(index, count);
    }
}

/// The switch key cycles through all targets: from any target, the camera
/// always stays on a valid target, and after as many presses as there are
/// targets it is back on the target it started from.
pub proof fn law_targets_cycle(index: nat, count: nat, presses: nat)
    requires
        index < count,
    ensures
        0 <= spec_after_presses(index as int, count as int, presses) < count,
        spec_after_presses(index as int, count as int, count) == index,
{
    lemma_after_presses_closed_form(index, count, presses);
    lemma_after_presses_closed_form(index, count, count);
    lemma_mod_add_multiples_vanish(index as int, count as int);
    lemma_small_mod(index, count);
}

} // verus!
