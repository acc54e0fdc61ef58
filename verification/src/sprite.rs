use vstd::prelude::*;

verus! {

/// Number of animation frames of a creature.
pub const FRAME_COUNT: usize = 4;

/// The positions of `count` creatures placed on the spawn points in turn, wrapping
/// around the list; no creature at all when there is no spawn point.
pub fn spawn_positions<T: Copy>(spawn_points: &[T], count: usize) -> (v: Vec<T>)
    ensures
        spawn_points@.len() == 0 ==> v@.len() == 0,
        spawn_points@.len() > 0 ==> v@.len() == count,
        spawn_points@.len() > 0 ==> forall|i: int|
            0 <= i < count ==> #[trigger] v@[i] == spawn_points@[i % spawn_points@.len() as int],
{
    let mut v: Vec<T> = Vec::new();
    let n = spawn_points.len();
    if n == 0 {
        return v;
    }
    let mut i: usize = 0;
    while i < count
        invariant
            n == spawn_points@.len(),
            n > 0,
            i <= count,
            v@.len() == i,
            forall|k: int| 0 <= k < i ==> #[trigger] v@[k] == spawn_points@[k % n as int],
        decreases count - i,
    {
        v.push(spawn_points[i % n]);
        i = i + 1;
    }
    v
}

/// The animation frame that follows `frame`, looping back to the first.
pub fn next_frame(frame: usize) -> (f: usize)
    requires
        frame < FRAME_COUNT,
    ensures
        f == (frame + 1) % (FRAME_COUNT as int),
        f < FRAME_COUNT,
{
    (frame + 1) % FRAME_COUNT
}

} // verus!
