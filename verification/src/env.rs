use vstd::prelude::*;

verus! {

broadcast use vstd::string::axiom_spec_iter;

/// Whether `pattern` occurs in `text` starting at position `i`.
pub open spec fn spec_occurs_at(text: Seq<char>, pattern: Seq<char>, i: int) -> bool {
    &&& 0 <= i
    &&& i + pattern.len() <= text.len()
    &&& text.subrange(i, i + pattern.len()) == pattern
}

/// Whether `pattern` occurs somewhere in `text` (the empty pattern occurs in
/// every text).
pub open spec fn spec_contains_text(text: Seq<char>, pattern: Seq<char>) -> bool {
    exists|i: int| spec_occurs_at(text, pattern, i)
}

/// The characters of a string, in order.
fn chars_of(s: &str) -> (chars: Vec<char>)
    ensures
        chars@ == s@,
{
    let mut chars: Vec<char> = Vec::new();
    for c in it: s.chars()
        invariant
            it.seq() == s@,
            chars@ == it.seq().take(it.index() as int),
    {
        chars.push(c);
    }
    chars
}

/// Whether `pattern` occurs in `text` at position `i`, checked character by
/// character.
fn occurs_at(text: &Vec<char>, pattern: &Vec<char>, i: usize) -> (found: bool)
    requires
        i + pattern.len() <= text.len(),
    ensures
        found == spec_occurs_at(text@, pattern@, i as int),
{
    let mut k: usize = 0;
    while k < pattern.len()
        invariant
            i + pattern.len() <= text.len(),
            k <= pattern.len(),
            forall|j: int| 0 <= j < k ==> text@[i + j] == pattern@[j],
        decreases pattern.len() - k,
    {
        if text[i + k] != pattern[k] {
            assert(text@.subrange(i as int, i + pattern.len())[k as int] != pattern@[k as int]);
            return false;
        }
        k = k + 1;
    }
    assert(text@.subrange(i as int, i + pattern.len()) =~= pattern@);
    true
}

/// Whether `pattern` occurs somewhere in `text`, as `str::contains` tells it.
pub fn contains_text(text: &str, pattern: &str) -> (found: bool)
    ensures
        found == spec_contains_text(text@, pattern@),
        found == spec_has_infix(text@, pattern@),
{
    proof {
        law_contains_is_infix(text@, pattern@);
    }
    let t = chars_of(text);
    let p = chars_of(pattern);
    if p.len() > t.len() {
        return false;
    }
    let last = t.len() - p.len();
    let mut i: usize = 0;
    loop
        invariant
            t@ == text@,
            p@ == pattern@,
            last == t.len() - p.len(),
            i <= last,
            forall|j: int| 0 <= j < i ==> !spec_occurs_at(text@, pattern@, j),
            spec_contains_text(text@, pattern@) == spec_has_infix(text@, pattern@),
        decreases last - i,
    {
        if occurs_at(&t, &p, i) {
            return true;
        }
        if i == last {
            return false;
        }
        i = i + 1;
    }
}

/// What a node of the loaded scene is marked as by its extras text.
#[derive(Clone, Copy, Debug, PartialEq, Eq, Structural)]
pub enum SceneMarker {
    /// A lantern: a spot light is hung under it.
    LanternLight,
    /// The stand the conveyor is placed on.
    TransporterStand,
    /// The point the river's drops fall from.
    RiverSource,
}

/// The marker a node's extras text names; a lantern takes precedence over a
/// stand, and a stand over a river source.
pub open spec fn spec_classify_extras(extras: Seq<char>) -> Option<SceneMarker> {
    if spec_contains_text(extras, "LanternLight"@) {
        Some(SceneMarker::LanternLight)
    } else if spec_contains_text(extras, "TransporterStand"@) {
        Some(SceneMarker::TransporterStand)
    } else if spec_contains_text(extras, "RiverSource"@) {
        Some(SceneMarker::RiverSource)
    } else {
        None
    }
}

/// Recognises the marker that a scene node's extras text names, if any.
pub fn classify_extras(extras: &str) -> (marker: Option<SceneMarker>)
    ensures
        marker == spec_classify_extras(extras@),
        spec_has_infix(extras@, "LanternLight"@) ==> marker == Some(SceneMarker::LanternLight),
        !spec_has_infix(extras@, "LanternLight"@) && spec_has_infix(extras@, "TransporterStand"@)
            ==> marker == Some(SceneMarker::TransporterStand),
        !spec_has_infix(extras@, "LanternLight"@) && !spec_has_infix(extras@, "TransporterStand"@)
            && spec_has_infix(extras@, "RiverSource"@) ==> marker == Some(SceneMarker::RiverSource),
        !spec_has_infix(extras@, "LanternLight"@) && !spec_has_infix(extras@, "TransporterStand"@)
            && !spec_has_infix(extras@, "RiverSource"@) ==> marker == None::<SceneMarker>,
{
    proof {
        law_extras_markers(extras@);
    }
    if contains_text(extras, "LanternLight") {
        Some(SceneMarker::LanternLight)
    } else if contains_text(extras, "TransporterStand") {
        Some(SceneMarker::TransporterStand)
    } else if contains_text(extras, "RiverSource") {
        Some(SceneMarker::RiverSource)
    } else {
        None
    }
}

/// Whether a collider that has just been added belongs to the hill: its
/// name contains `hill`. The hill is ready once its collider exists.
pub fn is_hill_collider(name: &str) -> (hill: bool)
    ensures
        hill == spec_contains_text(name@, "hill"@),
        hill == spec_has_infix(name@, "hill"@),
{
    proof {
        law_hill_names(name@);
    }
    contains_text(name, "hill")
}

/// Whether `text` is `pattern` with something before and something after it.
pub open spec fn spec_has_infix(text: Seq<char>, pattern: Seq<char>) -> bool {
    exists|before: Seq<char>, after: Seq<char>| text == before + pattern + after
}

/// A pattern is found in a text exactly when the text is the pattern with
/// something, possibly nothing, before and after it.
pub proof fn law_contains_is_infix(text: Seq<char>, pattern: Seq<char>)
    ensures
        spec_contains_text(text, pattern) <==> spec_has_infix(text, pattern),
{
    if spec_contains_text(text, pattern) {
        let i = choose|i: int| spec_occurs_at(text, pattern, i);
        let before = text.subrange(0, i);
        let after = text.subrange(i + pattern.len(), text.len() as int);
        assert(text =~= before + pattern + after);
    }
    if spec_has_infix(text, pattern) {
        let (before, after) = choose|before: Seq<char>, after: Seq<char>|
            text == before + pattern + after;
        assert(text.subrange(before.len() as int, (before.len() + pattern.len()) as int) =~= pattern);
        assert(spec_occurs_at(text, pattern, before.len() as int));
    }
}

/// Which marker a node's extras text names, told by the key names it
/// holds, whatever values follow them: a text holding `LanternLight` marks
/// a lantern; one holding `TransporterStand` but no lantern key marks the
/// stand; one holding `RiverSource` but neither of the others marks the
/// river's source; any other text marks nothing.
pub proof fn law_extras_markers(extras: Seq<char>)
    ensures
        spec_has_infix(extras, "LanternLight"@) ==> spec_classify_extras(extras) == Some(
            SceneMarker::LanternLight,
        ),
        !spec_has_infix(extras, "LanternLight"@) && spec_has_infix(extras, "TransporterStand"@)
            ==> spec_classify_extras(extras) == Some(SceneMarker::TransporterStand),
        !spec_has_infix(extras, "LanternLight"@) && !spec_has_infix(extras, "TransporterStand"@)
            && spec_has_infix(extras, "RiverSource"@) ==> spec_classify_extras(extras) == Some(
            SceneMarker::RiverSource,
        ),
        !spec_has_infix(extras, "LanternLight"@) && !spec_has_infix(extras, "TransporterStand"@)
            && !spec_has_infix(extras, "RiverSource"@) ==> spec_classify_extras(extras) == None::<
            SceneMarker,
        >,
{
    law_contains_is_infix(extras, "LanternLight"@);
    law_contains_is_infix(extras, "TransporterStand"@);
    law_contains_is_infix(extras, "RiverSource"@);
}

/// A river-source key is recognised whatever surrounds it, as long as no
/// lantern or stand key is in the text: with any text before it and any
/// value after it, the node is marked as the river's source.
pub proof fn law_river_source_key_marks_source(before: Seq<char>, after: Seq<char>)
    requires
        !spec_has_infix(before + "RiverSource"@ + after, "LanternLight"@),
        !spec_has_infix(before + "RiverSource"@ + after, "TransporterStand"@),
    ensures
        spec_classify_extras(before + "RiverSource"@ + after) == Some(SceneMarker::RiverSource),
{
    let text = before + "RiverSource"@ + after;
    assert(spec_has_infix(text, "RiverSource"@));
    law_extras_markers(text);
}

/// A lantern key is recognised whatever surrounds it.
pub proof fn law_lantern_key_marks_lantern(before: Seq<char>, after: Seq<char>)
    ensures
        spec_classify_extras(before + "LanternLight"@ + after) == Some(SceneMarker::LanternLight),
{
    let text = before + "LanternLight"@ + after;
    assert(spec_has_infix(text, "LanternLight"@));
    law_extras_markers(text);
}

/// A stand key is recognised whatever surrounds it, unless a lantern key is
/// in the text too.
pub proof fn law_stand_key_marks_stand(before: Seq<char>, after: Seq<char>)
    requires
        !spec_has_infix(before + "TransporterStand"@ + after, "LanternLight"@),
    ensures
        spec_classify_extras(before + "TransporterStand"@ + after) == Some(
            SceneMarker::TransporterStand,
        ),
{
    let text = before + "TransporterStand"@ + after;
    assert(spec_has_infix(text, "TransporterStand"@));
    law_extras_markers(text);
}

/// A collider belongs to the hill exactly when `hill` stands somewhere in its
/// name.
pub proof fn law_hill_names(name: Seq<char>)
    ensures
        spec_contains_text(name, "hill"@) <==> spec_has_infix(name, "hill"@),
        forall|before: Seq<char>, after: Seq<char>|
            #![trigger before + "hill"@ + after]
            spec_contains_text(before + "hill"@ + after, "hill"@),
{
    law_contains_is_infix(name, "hill"@);
    assert forall|before: Seq<char>, after: Seq<char>|
        #![trigger before + "hill"@ + after]
        spec_contains_text(before + "hill"@ + after, "hill"@) by {
        law_contains_is_infix(before + "hill"@ + after, "hill"@);
        assert(spec_has_infix(before + "hill"@ + after, "hill"@));
    }
}

} // verus!
