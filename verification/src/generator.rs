use vstd::prelude::*;
use crate::transporter::{side_sign, spec_side_sign, Roll};

verus! {

/// The index of a generator part in the model: 0 for the vane, 1 for the rotor.
#[derive(Clone, Copy, Debug, PartialEq, Eq, Structural)]
pub struct Part(pub usize);

/// Number of parts the generator model holds.
pub const PART_COUNT: usize = 2;

/// Index of the rotor among the generator parts; it also names the roll
/// position whose roll turns the rotor.
pub const ROTOR_INDEX: usize = 1;

/// How a generator part is placed: which part it is, on which side of the
/// generator's axis it sits, and whether it is the rotor.
#[derive(Clone, Copy, Debug, PartialEq, Eq, Structural)]
pub struct PartSpec {
    pub index: usize,
    pub sign: i8,
    pub is_rotor: bool,
}

pub open spec fn spec_part_spec(index: int) -> PartSpec {
    PartSpec { index: index as usize, sign: spec_side_sign(index) as i8, is_rotor: index == ROTOR_INDEX }
}

/// The parts to spawn, in model order, given which parts the loaded model
/// provides: every provided part, placed by its index.
pub open spec fn spec_part_specs(available: Seq<bool>) -> Seq<PartSpec>
    decreases available.len(),
{
    if available.len() == 0 {
        seq![]
    } else {
        let rest = spec_part_specs(available.drop_last());
        if available.last() {
            rest.push(spec_part_spec(available.len() - 1))
        } else {
            rest
        }
    }
}

/// The parts to spawn once the generator model has loaded: for each part
/// index whose mesh the model provides, its placement; the others are skipped.
pub fn part_specs(available: &Vec<bool>) -> (specs: Vec<PartSpec>)
    ensures
        specs@ == spec_part_specs(available@),
{
    let mut specs: Vec<PartSpec> = Vec::new();
    for i in 0..available.len()
        invariant
            specs@ == spec_part_specs(available@.take(i as int)),
    {
        assert(available@.take(i + 1).drop_last() =~= available@.take(i as int));
        if available[i] {
            let sign = side_sign(i);
            specs.push(PartSpec { index: i, sign, is_rotor: i == ROTOR_INDEX });
        }
    }
    assert(available@.take(available.len() as int) =~= available@);
    specs
}

/// The result of one frame of waiting for the generator model: whether the
/// parts are marked as spawned afterwards, and whether to spawn them now.
pub open spec fn spec_load_step(loaded: bool, asset_ready: bool) -> (bool, bool) {
    (loaded || asset_ready, !loaded && asset_ready)
}

/// One frame of waiting for the generator model. Once the parts have been
/// spawned nothing more happens; otherwise they are spawned as soon as the
/// model is available.
pub fn load_step(loaded: bool, asset_ready: bool) -> (step: (bool, bool))
    ensures
        step == spec_load_step(loaded, asset_ready),
{
    if loaded {
        return (true, false);
    }
    if asset_ready {
        (true, true)
    } else {
        (false, false)
    }
}

/// Over a series of frames, each telling whether the model was available:
/// the final flag and the number of frames in which the parts were spawned.
pub open spec fn spec_load_run(loaded: bool, ready: Seq<bool>) -> (bool, nat)
    decreases ready.len(),
{
    if ready.len() == 0 {
        (loaded, 0)
    } else {
        let (flag, spawned) = spec_load_run(loaded, ready.drop_last());
        let step = spec_load_step(flag, ready.last());
        (step.0, spawned + if step.1 {
            1nat
        } else {
            0nat
        })
    }
}

/// The generator's parts are spawned at most once, and, starting from an
/// unloaded state, exactly once if the model was available in some frame.
pub proof fn law_parts_spawn_once(ready: Seq<bool>)
    ensures
        spec_load_run(false, ready).1 <= 1,
        spec_load_run(false, ready).0 <==> spec_load_run(false, ready).1 == 1,
        spec_load_run(false, ready).0 <==> exists|i: int| 0 <= i < ready.len() && #[trigger] ready[i],
        spec_load_run(true, ready) == (true, 0nat),
    decreases ready.len(),
{
    if ready.len() > 0 {
        let init = ready.drop_last();
        law_parts_spawn_once(init);
        if exists|i: int| 0 <= i < init.len() && #[trigger] init[i] {
            let i = choose|i: int| 0 <= i < init.len() && #[trigger] init[i];
            assert(ready[i]);
        }
        if exists|i: int| 0 <= i < ready.len() && #[trigger] ready[i] {
            let i = choose|i: int| 0 <= i < ready.len() && #[trigger] ready[i];
            if i < init.len() {
                assert(init[i]);
            }
        }
    }
}

/// A roll of the conveyor, as the entity that carries it and its index.
pub type RollEntry = (u64, Roll);

/// A generator part, as the entity that carries it and its index.
pub type PartEntry = (u64, Part);

/// Whether a roll entry carries roll index `k`.
pub open spec fn spec_has_index(k: int) -> spec_fn(RollEntry) -> bool {
    |e: RollEntry| e.1.0 == k
}

/// The rolls whose index is below `k`, ordered by index, rolls of equal index
/// kept in the order they were found.
pub open spec fn spec_rolls_below(rolls: Seq<RollEntry>, k: nat) -> Seq<RollEntry>
    decreases k,
{
    if k == 0 {
        seq![]
    } else {
        spec_rolls_below(rolls, (k - 1) as nat) + rolls.filter(spec_has_index(k - 1))
    }
}

/// The rolls in the order of their index; rolls of equal index keep the
/// order in which they were found (a stable sort by index).
pub open spec fn spec_sort_rolls(rolls: Seq<RollEntry>) -> Seq<RollEntry> {
    spec_rolls_below(rolls, 256)
}

/// Whether a sequence of rolls is ordered by index.
pub open spec fn spec_ordered_by_index(rolls: Seq<RollEntry>) -> bool {
    forall|i: int, j: int|
        0 <= i <= j < rolls.len() ==> (#[trigger] rolls[i]).1.0 <= (#[trigger] rolls[j]).1.0
}

/// Sorts the rolls by index, keeping rolls of equal index in the order they
/// were found.
pub fn sort_rolls(rolls: &Vec<RollEntry>) -> (sorted: Vec<RollEntry>)
    ensures
        sorted@ == spec_sort_rolls(rolls@),
{
    let mut sorted: Vec<RollEntry> = Vec::new();
    for k in 0..256usize
        invariant
            sorted@ == spec_rolls_below(rolls@, k as nat),
    {
        let ghost start = sorted@;
        for j in 0..rolls.len()
            invariant
                0 <= k < 256,
                start == spec_rolls_below(rolls@, k as nat),
                sorted@ == start + rolls@.take(j as int).filter(spec_has_index(k as int)),
        {
            let entry = rolls[j];
            proof {
                assert(rolls@.take(j + 1) =~= rolls@.take(j as int).push(entry));
                rolls@.take(j as int).lemma_filter_push(entry, spec_has_index(k as int));
            }
            if entry.1.0 as usize == k {
                sorted.push(entry);
            }
        }
        assert(rolls@.take(rolls.len() as int) =~= rolls@);
    }
    sorted
}

/// Every roll in the first `k` buckets has an index below `k`, and the
/// buckets are in order.
pub proof fn lemma_rolls_below_ordered(rolls: Seq<RollEntry>, k: nat)
    ensures
        forall|i: int|
            0 <= i < spec_rolls_below(rolls, k).len() ==> (#[trigger] spec_rolls_below(
                rolls,
                k,
            )[i]).1.0 < k,
        spec_ordered_by_index(spec_rolls_below(rolls, k)),
    decreases k,
{
    broadcast use Seq::lemma_filter_pred;

    if k > 0 {
        lemma_rolls_below_ordered(rolls, (k - 1) as nat);
        let a = spec_rolls_below(rolls, (k - 1) as nat);
        let f = rolls.filter(spec_has_index(k - 1));
        let r = spec_rolls_below(rolls, k);
        assert(r == a + f);
        assert forall|i: int| 0 <= i < r.len() implies (#[trigger] r[i]).1.0 < k by {
            if i >= a.len() {
                assert(r[i] == f[i - a.len()]);
            }
        }
        assert forall|i: int, j: int| 0 <= i <= j < r.len() implies (#[trigger] r[i]).1.0 <= (
        #[trigger] r[j]).1.0 by {
            if j >= a.len() {
                assert(r[j] == f[j - a.len()]);
                if i >= a.len() {
                    assert(r[i] == f[i - a.len()]);
                }
            }
        }
    }
}

/// With no rolls, every bucket is empty.
pub proof fn lemma_rolls_below_empty(k: nat)
    ensures
        spec_rolls_below(Seq::<RollEntry>::empty(), k) == Seq::<RollEntry>::empty(),
    decreases k,
{
    reveal(Seq::filter);
    if k > 0 {
        lemma_rolls_below_empty((k - 1) as nat);
        assert(Seq::<RollEntry>::empty().filter(spec_has_index(k - 1)) =~= Seq::<RollEntry>::empty());
        assert(Seq::<RollEntry>::empty() + Seq::<RollEntry>::empty() =~= Seq::<RollEntry>::empty());
    }
}

/// Adding one roll adds it to the buckets below `k` exactly when its index
/// is below `k`.
pub proof fn lemma_rolls_below_push(rolls: Seq<RollEntry>, x: RollEntry, k: nat)
    ensures
        spec_rolls_below(rolls.push(x), k).to_multiset() == if x.1.0 < k {
            spec_rolls_below(rolls, k).to_multiset().insert(x)
        } else {
            spec_rolls_below(rolls, k).to_multiset()
        },
    decreases k,
{
    broadcast use vstd::multiset::group_multiset_axioms;
    broadcast use vstd::seq_lib::lemma_multiset_commutative;
    broadcast use vstd::seq_lib::to_multiset_build;

    if k > 0 {
        lemma_rolls_below_push(rolls, x, (k - 1) as nat);
        let p = spec_has_index(k - 1);
        rolls.lemma_filter_push(x, p);
        let a_new = spec_rolls_below(rolls.push(x), (k - 1) as nat);
        let a_old = spec_rolls_below(rolls, (k - 1) as nat);
        let f_new = rolls.push(x).filter(p);
        let f_old = rolls.filter(p);
        assert((a_new + f_new).to_multiset() =~= a_new.to_multiset().add(f_new.to_multiset()));
        assert((a_old + f_old).to_multiset() =~= a_old.to_multiset().add(f_old.to_multiset()));
        if x.1.0 < k - 1 {
            assert(spec_rolls_below(rolls.push(x), k).to_multiset() =~= spec_rolls_below(
                rolls,
                k,
            ).to_multiset().insert(x));
        } else if x.1.0 == k - 1 {
            assert(f_new.to_multiset() =~= f_old.to_multiset().insert(x));
            assert(spec_rolls_below(rolls.push(x), k).to_multiset() =~= spec_rolls_below(
                rolls,
                k,
            ).to_multiset().insert(x));
        } else {
            assert(spec_rolls_below(rolls.push(x), k).to_multiset() =~= spec_rolls_below(
                rolls,
                k,
            ).to_multiset());
        }
    }
}

/// Sorting the rolls puts them in order of index and keeps every roll, each
/// as often as it was found.
pub proof fn law_sorted_rolls_are_a_permutation_in_order(rolls: Seq<RollEntry>)
    ensures
        spec_ordered_by_index(spec_sort_rolls(rolls)),
        spec_sort_rolls(rolls).to_multiset() == rolls.to_multiset(),
        spec_sort_rolls(rolls).len() == rolls.len(),
    decreases rolls.len(),
{
    broadcast use vstd::seq_lib::to_multiset_build;
    broadcast use vstd::seq_lib::to_multiset_len;

    lemma_rolls_below_ordered(rolls, 256);
    if rolls.len() == 0 {
        lemma_rolls_below_empty(256);
        assert(rolls =~= Seq::<RollEntry>::empty());
    } else {
        let init = rolls.drop_last();
        let x = rolls.last();
        law_sorted_rolls_are_a_permutation_in_order(init);
        assert(init.push(x) =~= rolls);
        lemma_rolls_below_push(init, x, 256);
    }
    vstd::seq_lib::to_multiset_len(rolls);
    vstd::seq_lib::to_multiset_len(spec_sort_rolls(rolls));
}

/// Where the generator's parts go once both the conveyor and the model are
/// in the scene: the roll that becomes the rotor, each part paired with the
/// roll it is attached to, and the not-ready marker to remove.
pub struct AttachPlan {
    pub rotor_roll: u64,
    pub attachments: Vec<(u64, u64)>,
    pub finished_marker: u64,
}

/// Whether the parts can be attached now: there are rolls and parts, and the
/// generator's not-ready marker was found once.
pub open spec fn spec_attach_ready(
    rolls: Seq<RollEntry>,
    parts: Seq<PartEntry>,
    not_ready: Option<u64>,
) -> bool {
    &&& rolls.len() > 0
    &&& parts.len() > 0
    &&& not_ready is Some
}

/// The inputs on which attaching can be carried out: when it is due, there
/// is a roll at the rotor's position and one at every part's index.
pub open spec fn spec_attach_possible(
    rolls: Seq<RollEntry>,
    parts: Seq<PartEntry>,
    not_ready: Option<u64>,
) -> bool {
    spec_attach_ready(rolls, parts, not_ready) ==> {
        &&& rolls.len() > ROTOR_INDEX
        &&& forall|i: int| 0 <= i < parts.len() ==> (#[trigger] parts[i]).1.0 < rolls.len()
    }
}

/// The roll each part is attached to: the roll at the part's index in the
/// rolls ordered by index.
pub open spec fn spec_attachments(rolls: Seq<RollEntry>, parts: Seq<PartEntry>) -> Seq<(u64, u64)> {
    Seq::new(
        parts.len(),
        |i: int| (parts[i].0, spec_sort_rolls(rolls)[parts[i].1.0 as int].0),
    )
}

/// Attaches the generator's parts to the conveyor's rolls. Nothing is done
/// until there are rolls and parts and the not-ready marker is found once;
/// then the rolls are ordered by index, the roll at the rotor's position
/// becomes the rotor, every part is attached to the roll at its own index,
/// and the not-ready marker is removed.
pub fn plan_part_attachment(
    rolls: &Vec<RollEntry>,
    parts: &Vec<PartEntry>,
    not_ready: Option<u64>,
) -> (plan: Option<AttachPlan>)
    requires
        spec_attach_possible(rolls@, parts@, not_ready),
    ensures
        plan is Some <==> spec_attach_ready(rolls@, parts@, not_ready),
        plan matches Some(p) ==> {
            &&& p.rotor_roll == spec_sort_rolls(rolls@)[ROTOR_INDEX as int].0
            &&& p.attachments@ == spec_attachments(rolls@, parts@)
            &&& Some(p.finished_marker) == not_ready
            &&& p.attachments.len() == parts.len()
            &&& forall|i: int| 0 <= i < parts.len() ==> (#[trigger] p.attachments@[i]).0 == parts@[i].0
            &&& forall|i: int|
                0 <= i < parts.len() && parts@[i].1.0 == ROTOR_INDEX ==> (
                #[trigger] p.attachments@[i]).1 == p.rotor_roll
            &&& exists|k: int| 0 <= k < rolls.len() && rolls@[k].0 == p.rotor_roll
            &&& forall|i: int|
                0 <= i < parts.len() ==> exists|k: int|
                    0 <= k < rolls.len() && rolls@[k].0 == (#[trigger] p.attachments@[i]).1
            &&& (spec_distinct_indices(rolls@) && forall|k: int|
                0 <= k < rolls.len() ==> (#[trigger] rolls@[k]).1.0 < rolls.len()) ==> {
                &&& spec_roll_with_index(rolls@, ROTOR_INDEX as int, p.rotor_roll)
                &&& forall|i: int|
                    0 <= i < parts.len() ==> spec_roll_with_index(
                        rolls@,
                        parts@[i].1.0 as int,
                        (#[trigger] p.attachments@[i]).1,
                    )
            }
        },
{
    if rolls.len() == 0 || parts.len() == 0 {
        return None;
    }
    let marker = match not_ready {
        Some(m) => m,
        None => {
            return None;
        },
    };
    let sorted = sort_rolls(rolls);
    proof {
        law_sorted_rolls_are_a_permutation_in_order(rolls@);
    }
    let rotor_roll = sorted[ROTOR_INDEX].0;
    let mut attachments: Vec<(u64, u64)> = Vec::new();
    for i in 0..parts.len()
        invariant
            sorted@ == spec_sort_rolls(rolls@),
            sorted.len() == rolls.len(),
            forall|j: int| 0 <= j < parts.len() ==> (#[trigger] parts@[j]).1.0 < rolls.len(),
            attachments@ == spec_attachments(rolls@, parts@).take(i as int),
    {
        let part = parts[i];
        attachments.push((part.0, sorted[part.1.0].0));
        assert(attachments@ =~= spec_attachments(rolls@, parts@).take(i + 1));
    }
    assert(attachments@ =~= spec_attachments(rolls@, parts@));
    proof {
        law_parts_hang_on_found_rolls(rolls@, parts@);
        if spec_distinct_indices(rolls@) && forall|k: int|
            0 <= k < rolls.len() ==> (#[trigger] rolls@[k]).1.0 < rolls.len() {
            law_parts_hang_on_roll_of_their_index(rolls@, parts@);
        }
    }
    Some(AttachPlan { rotor_roll, attachments, finished_marker: marker })
}

/// The rotor's mesh is attached to the roll that turns the rotor: every part
/// with the rotor's index hangs on the rotor roll.
pub proof fn law_rotor_part_rides_rotor_roll(rolls: Seq<RollEntry>, parts: Seq<PartEntry>)
    ensures
        forall|i: int|
            0 <= i < parts.len() && (#[trigger] parts[i]).1.0 == ROTOR_INDEX ==> spec_attachments(
                rolls,
                parts,
            )[i].1 == spec_sort_rolls(rolls)[ROTOR_INDEX as int].0,
{
}

/// Every part hangs on one of the rolls that were found, and so does the
/// rotor: attaching never invents a roll.
pub proof fn law_parts_hang_on_found_rolls(rolls: Seq<RollEntry>, parts: Seq<PartEntry>)
    requires
        rolls.len() > ROTOR_INDEX,
        forall|i: int| 0 <= i < parts.len() ==> (#[trigger] parts[i]).1.0 < rolls.len(),
    ensures
        exists|k: int| 0 <= k < rolls.len() && rolls[k].0 == spec_sort_rolls(rolls)[ROTOR_INDEX as int].0,
        forall|i: int|
            0 <= i < parts.len() ==> exists|k: int|
                0 <= k < rolls.len() && rolls[k].0 == (#[trigger] spec_attachments(rolls, parts)[i]).1,
{
    broadcast use vstd::seq_lib::to_multiset_contains;

    law_sorted_rolls_are_a_permutation_in_order(rolls);
    let sorted = spec_sort_rolls(rolls);
    assert forall|j: int| 0 <= j < sorted.len() implies exists|k: int|
        0 <= k < rolls.len() && rolls[k] == #[trigger] sorted[j] by {
        assert(sorted.contains(sorted[j]));
        assert(sorted.to_multiset().count(sorted[j]) > 0);
        assert(rolls.contains(sorted[j]));
    }
    let r = sorted[ROTOR_INDEX as int];
    let k0 = choose|k: int| 0 <= k < rolls.len() && rolls[k] == r;
    assert(rolls[k0].0 == r.0);
    assert forall|i: int| 0 <= i < parts.len() implies exists|k: int|
        0 <= k < rolls.len() && rolls[k].0 == (#[trigger] spec_attachments(rolls, parts)[i]).1 by {
        let e = sorted[parts[i].1.0 as int];
        let k = choose|k: int| 0 <= k < rolls.len() && rolls[k] == e;
        assert(rolls[k].0 == spec_attachments(rolls, parts)[i].1);
    }
}

/// Every part is attached exactly where it stands: the `i`-th attachment
/// carries the `i`-th part and no other, so each part is hung once and none
/// is left out.
pub proof fn law_each_part_is_attached_once(rolls: Seq<RollEntry>, parts: Seq<PartEntry>)
    ensures
        spec_attachments(rolls, parts).len() == parts.len(),
        forall|i: int|
            0 <= i < parts.len() ==> (#[trigger] spec_attachments(rolls, parts)[i]).0 == parts[i].0,
{
}

/// Whether every roll index occurs at most once among the rolls.
pub open spec fn spec_distinct_indices(rolls: Seq<RollEntry>) -> bool {
    forall|a: int, b: int|
        0 <= a < rolls.len() && 0 <= b < rolls.len() && a != b ==> (#[trigger] rolls[a]).1.0 != (
        #[trigger] rolls[b]).1.0
}

/// Sorting keeps the roll indices distinct when they were distinct.
pub proof fn lemma_sorted_indices_distinct(rolls: Seq<RollEntry>)
    requires
        spec_distinct_indices(rolls),
    ensures
        spec_distinct_indices(spec_sort_rolls(rolls)),
{
    broadcast use vstd::seq_lib::to_multiset_contains;
    broadcast use vstd::seq_lib::to_multiset_remove;
    broadcast use vstd::multiset::group_multiset_axioms;

    law_sorted_rolls_are_a_permutation_in_order(rolls);
    let sorted = spec_sort_rolls(rolls);
    assert forall|a: int, b: int|
        0 <= a < sorted.len() && 0 <= b < sorted.len() && a != b implies (#[trigger] sorted[a]).1.0
        != (#[trigger] sorted[b]).1.0 by {
        if sorted[a].1.0 == sorted[b].1.0 {
            let e = sorted[a];
            assert(sorted.contains(e));
            assert(sorted.to_multiset().count(e) > 0);
            assert(rolls.contains(e));
            let ka = choose|k: int| 0 <= k < rolls.len() && rolls[k] == e;
            assert(sorted.contains(sorted[b]));
            assert(sorted.to_multiset().count(sorted[b]) > 0);
            assert(rolls.contains(sorted[b]));
            let kb = choose|k: int| 0 <= k < rolls.len() && rolls[k] == sorted[b];
            assert(ka == kb);
            assert(sorted[b] == e);
            // In the rolls, `e` occurs once: without it, no roll has its index.
            let rest = rolls.remove(ka);
            assert(!rest.contains(e)) by {
                if rest.contains(e) {
                    let j = choose|j: int| 0 <= j < rest.len() && rest[j] == e;
                    if j < ka {
                        assert(rest[j] == rolls[j]);
                    } else {
                        assert(rest[j] == rolls[j + 1]);
                    }
                }
            }
            assert(rest.to_multiset().count(e) == 0);
            assert(rolls.to_multiset().count(e) == 1);
            // In the sorted rolls it occurs at both `a` and `b`.
            let rest_sorted = sorted.remove(a);
            let bi = if b < a { b } else { b - 1 };
            assert(rest_sorted[bi] == e);
            assert(rest_sorted.contains(e));
            assert(rest_sorted.to_multiset().count(e) > 0);
            assert(sorted.to_multiset().count(e) >= 2);
        }
    }
}

/// An ordered run of `n` rolls whose indices are distinct and below `n`
/// holds index `j` at position `j`.
pub proof fn lemma_distinct_ordered_indices_are_positions(s: Seq<RollEntry>)
    requires
        spec_ordered_by_index(s),
        spec_distinct_indices(s),
        forall|j: int| 0 <= j < s.len() ==> (#[trigger] s[j]).1.0 < s.len(),
    ensures
        forall|j: int| 0 <= j < s.len() ==> (#[trigger] s[j]).1.0 == j,
{
    assert forall|j: int| 0 <= j < s.len() implies (#[trigger] s[j]).1.0 == j by {
        lemma_index_at_least_position(s, j);
        lemma_index_at_most_position(s, j);
    }
}

proof fn lemma_index_at_least_position(s: Seq<RollEntry>, j: int)
    requires
        spec_ordered_by_index(s),
        spec_distinct_indices(s),
        0 <= j < s.len(),
    ensures
        s[j].1.0 >= j,
    decreases j,
{
    if j > 0 {
        lemma_index_at_least_position(s, j - 1);
        assert(s[j - 1].1.0 <= s[j].1.0);
        assert(s[j - 1].1.0 != s[j].1.0);
    }
}

proof fn lemma_index_at_most_position(s: Seq<RollEntry>, j: int)
    requires
        spec_ordered_by_index(s),
        spec_distinct_indices(s),
        forall|k: int| 0 <= k < s.len() ==> (#[trigger] s[k]).1.0 < s.len(),
        0 <= j < s.len(),
    ensures
        s[j].1.0 <= j,
    decreases s.len() - j,
{
    if j + 1 < s.len() {
        lemma_index_at_most_position(s, j + 1);
        assert(s[j].1.0 <= s[j + 1].1.0);
        assert(s[j].1.0 != s[j + 1].1.0);
    } else {
        assert(s[j].1.0 < s.len());
    }
}

/// The roll at sorted position `j` is one of the rolls that were found.
proof fn lemma_sorted_roll_was_found(rolls: Seq<RollEntry>, j: int)
    requires
        0 <= j < rolls.len(),
    ensures
        exists|k: int| 0 <= k < rolls.len() && rolls[k] == #[trigger] spec_sort_rolls(rolls)[j],
{
    broadcast use vstd::seq_lib::to_multiset_contains;

    law_sorted_rolls_are_a_permutation_in_order(rolls);
    let sorted = spec_sort_rolls(rolls);
    assert(sorted.contains(sorted[j]));
    assert(sorted.to_multiset().count(sorted[j]) > 0);
    assert(rolls.contains(sorted[j]));
}

/// With the indices `0..n` each carried once, sorted position `j` holds
/// the roll with index `j`.
proof fn lemma_sorted_position_is_index(rolls: Seq<RollEntry>, j: int)
    requires
        spec_distinct_indices(rolls),
        forall|k: int| 0 <= k < rolls.len() ==> (#[trigger] rolls[k]).1.0 < rolls.len(),
        0 <= j < rolls.len(),
    ensures
        spec_sort_rolls(rolls)[j].1.0 == j,
        exists|k: int|
            0 <= k < rolls.len() && rolls[k].1.0 == j && rolls[k].0 == spec_sort_rolls(rolls)[j].0,
{
    law_sorted_rolls_are_a_permutation_in_order(rolls);
    lemma_sorted_indices_distinct(rolls);
    let sorted = spec_sort_rolls(rolls);
    assert forall|m: int| 0 <= m < sorted.len() implies (#[trigger] sorted[m]).1.0 < sorted.len() by {
        lemma_sorted_roll_was_found(rolls, m);
        let k = choose|k: int| 0 <= k < rolls.len() && rolls[k] == sorted[m];
        assert(rolls[k].1.0 < rolls.len());
    }
    lemma_distinct_ordered_indices_are_positions(sorted);
    lemma_sorted_roll_was_found(rolls, j);
    let k = choose|k: int| 0 <= k < rolls.len() && rolls[k] == sorted[j];
    assert(rolls[k].1.0 == j && rolls[k].0 == sorted[j].0);
}

/// Whether the roll entity `roll` is the found roll that carries index `index`.
pub open spec fn spec_roll_with_index(rolls: Seq<RollEntry>, index: int, roll: u64) -> bool {
    exists|k: int| 0 <= k < rolls.len() && rolls[k].1.0 == index && rolls[k].0 == roll
}

/// When the conveyor's rolls carry the indices `0..n`, each once, every part
/// hangs on the roll whose index is the part's own index, and the rotor is
/// the roll with the rotor's index.
pub proof fn law_parts_hang_on_roll_of_their_index(rolls: Seq<RollEntry>, parts: Seq<PartEntry>)
    requires
        spec_distinct_indices(rolls),
        forall|k: int| 0 <= k < rolls.len() ==> (#[trigger] rolls[k]).1.0 < rolls.len(),
        forall|i: int| 0 <= i < parts.len() ==> (#[trigger] parts[i]).1.0 < rolls.len(),
    ensures
        forall|i: int|
            0 <= i < parts.len() ==> spec_roll_with_index(
                rolls,
                parts[i].1.0 as int,
                (#[trigger] spec_attachments(rolls, parts)[i]).1,
            ),
        rolls.len() > ROTOR_INDEX ==> spec_roll_with_index(
            rolls,
            ROTOR_INDEX as int,
            spec_sort_rolls(rolls)[ROTOR_INDEX as int].0,
        ),
{
    assert forall|i: int| 0 <= i < parts.len() implies spec_roll_with_index(
        rolls,
        parts[i].1.0 as int,
        (#[trigger] spec_attachments(rolls, parts)[i]).1,
    ) by {
        lemma_sorted_position_is_index(rolls, parts[i].1.0 as int);
    }
    if rolls.len() > ROTOR_INDEX {
        lemma_sorted_position_is_index(rolls, ROTOR_INDEX as int);
    }
}

} // verus!
