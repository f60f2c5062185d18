use vstd::prelude::*;

verus! {

/// One point mass: position, velocity and mass over a scalar type `S`.
#[derive(Clone, Copy)]
pub struct Partical<S> {
    pub x: S,
    pub y: S,
    pub velocity_x: S,
    pub velocity_y: S,
    pub mass: S,
}

impl<S: Copy> Partical<S> {
    pub fn new(x: S, y: S, velocity_x: S, velocity_y: S, mass: S) -> (r: Self)
        ensures
            r == (Partical { x, y, velocity_x, velocity_y, mass }),
    {
        Partical { x, y, velocity_x, velocity_y, mass }
    }
}

/// What a renderer reads of a particle: its position and its mass.
pub open spec fn view_of<S>(p: Partical<S>) -> (S, S, S) {
    (p.x, p.y, p.mass)
}

/// A read-only copy of every particle's position and mass, in order.
pub fn snapshot<S: Copy>(state: &Vec<Partical<S>>) -> (r: Vec<(S, S, S)>)
    ensures
        r@ == state@.map_values(|p: Partical<S>| view_of(p)),
{
    let mut r: Vec<(S, S, S)> = Vec::new();
    let mut i: usize = 0;
    while i < state.len()
        invariant
            i <= state.len(),
            r@ == state@.take(i as int).map_values(|p: Partical<S>| view_of(p)),
        decreases state.len() - i,
    {
        let p = &state[i];
        r.push((p.x, p.y, p.mass));
        proof {
            assert(state@.take(i + 1) == state@.take(i as int).push(state@[i as int]));
        }
        i = i + 1;
    }
    proof {
        assert(state@.take(state.len() as int) == state@);
    }
    r
}

} // verus!
