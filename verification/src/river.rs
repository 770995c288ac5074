use vstd::prelude::*;

verus! {

/// Number of drops the river is made of.
pub const DROPS_COUNT: usize = 1024;

/// What finishing the river's setup removes: the source marker, once its
/// position has been taken over, and the river's not-ready marker.
#[derive(Clone, Copy, Debug, PartialEq, Eq, Structural)]
pub struct RiverSetup {
    pub source_marker: u64,
    pub finished_marker: u64,
}

/// The river's setup step, given the source marker if exactly one is in the
/// scene and the river's not-ready marker if exactly one is: nothing happens
/// until the source marker is there; then both markers are removed.
pub fn river_setup(source_marker: Option<u64>, not_ready: Option<u64>) -> (setup: Option<RiverSetup>)
    requires
        source_marker is Some ==> not_ready is Some,
    ensures
        setup is Some <==> source_marker is Some,
        setup matches Some(s) ==> Some(s.source_marker) == source_marker && Some(
            s.finished_marker,
        ) == not_ready,
{
    match source_marker {
        Some(marker) => {
            let finished = match not_ready {
                Some(n) => n,
                None => {
                    return None;
                },
            };
            Some(RiverSetup { source_marker: marker, finished_marker: finished })
        },
        None => None,
    }
}

} // verus!
