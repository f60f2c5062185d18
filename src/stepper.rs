use vstd::prelude::*;
use crate::particle::Partical;

verus! {

/// Step `j` of the running sum of pulls on subject `i`: the subject itself
/// leaves the sum as it is, every other particle adds one pull.
pub open spec fn pull_step<S, A, F: Fn(A, &Partical<S>, &Partical<S>) -> A>(
    pull: F,
    state: Seq<Partical<S>>,
    i: int,
    acc: Seq<A>,
    j: int,
) -> bool {
    if j == i {
        acc[j + 1] == acc[j]
    } else {
        pull.ensures((acc[j], &state[i], &state[j]), acc[j + 1])
    }
}

/// `acc` records the sum of pulls on subject `i` over the peers in order,
/// starting from `zero`; its last entry is the net pull.
pub open spec fn is_pull_trace<S, A, F: Fn(A, &Partical<S>, &Partical<S>) -> A>(
    pull: F,
    state: Seq<Partical<S>>,
    i: int,
    zero: A,
    acc: Seq<A>,
) -> bool {
    &&& acc.len() == state.len() + 1
    &&& acc[0] == zero
    &&& forall|j: int| 0 <= j < state.len() ==> #[trigger] pull_step(pull, state, i, acc, j)
}

/// `a` is a net pull on subject `i`: the sum, from `zero`, of the pulls of
/// every particle of the snapshot but the subject.
pub open spec fn is_net_pull<S, A, F: Fn(A, &Partical<S>, &Partical<S>) -> A>(
    pull: F,
    state: Seq<Partical<S>>,
    i: int,
    zero: A,
    a: A,
) -> bool {
    exists|acc: Seq<A>| is_pull_trace(pull, state, i, zero, acc) && acc.last() == a
}

/// The pull closure can be called on any accumulator and any pair.
pub open spec fn pull_total<S, A, F: Fn(A, &Partical<S>, &Partical<S>) -> A>(pull: F) -> bool {
    forall|a: A, p: Partical<S>, q: Partical<S>| #[trigger] pull.requires((a, &p, &q))
}

/// The net pull on subject `i`, summed over the other particles by index.
pub fn net_pull<S, A: Copy, F>(state: &Vec<Partical<S>>, i: usize, zero: A, pull: &F) -> (a: A) where
    F: Fn(A, &Partical<S>, &Partical<S>) -> A,

    requires
        i < state.len(),
        pull_total(*pull),
    ensures
        is_net_pull(*pull, state@, i as int, zero, a),
{
    let ghost mut acc: Seq<A> = seq![zero];
    let mut sum: A = zero;
    let mut j: usize = 0;
    while j < state.len()
        invariant
            i < state.len(),
            j <= state.len(),
            pull_total(*pull),
            acc.len() == j + 1,
            acc[0] == zero,
            acc[j as int] == sum,
            forall|k: int| 0 <= k < j ==> #[trigger] pull_step(*pull, state@, i as int, acc, k),
        decreases state.len() - j,
    {
        if j != i {
            sum = pull(sum, &state[i], &state[j]);
        }
        proof {
            let prev = acc;
            acc = acc.push(sum);
            assert forall|k: int| 0 <= k < j + 1 implies #[trigger] pull_step(*pull, state@, i as int, acc, k) by {
                if k < j {
                    assert(pull_step(*pull, state@, i as int, prev, k));
                }
            }
        }
        j = j + 1;
    }
    proof {
        assert(is_pull_trace(*pull, state@, i as int, zero, acc) && acc.last() == sum);
    }
    sum
}

/// The kick closure can be called on any particle and any net pull.
pub open spec fn kick_total<S, A, K: Fn(&Partical<S>, A) -> (S, S)>(kick: K) -> bool {
    forall|p: Partical<S>, a: A| #[trigger] kick.requires((&p, a))
}

/// The drift closure can be called on any coordinate and any velocity.
pub open spec fn drift_total<S, D: Fn(S, S) -> S>(drift: D) -> bool {
    forall|c: S, v: S| #[trigger] drift.requires((c, v))
}

/// `q` is what subject `i` of `state` becomes in one tick: its velocity is
/// the kick of its old particle by a net pull over the old snapshot, each
/// coordinate drifts by the new velocity, and its mass is kept.
pub open spec fn is_successor<
    S,
    A,
    F: Fn(A, &Partical<S>, &Partical<S>) -> A,
    K: Fn(&Partical<S>, A) -> (S, S),
    D: Fn(S, S) -> S,
>(pull: F, kick: K, drift: D, state: Seq<Partical<S>>, i: int, zero: A, q: Partical<S>) -> bool {
    let p = state[i];
    &&& exists|a: A|
        #![trigger is_net_pull(pull, state, i, zero, a)]
        is_net_pull(pull, state, i, zero, a) && kick.ensures((&p, a), (q.velocity_x, q.velocity_y))
    &&& drift.ensures((p.x, q.velocity_x), q.x)
    &&& drift.ensures((p.y, q.velocity_y), q.y)
    &&& q.mass == p.mass
}

/// One tick: every subject is pulled by the old snapshot alone, kicked, and
/// drifted; the result is a new snapshot of the same length and order.
pub fn advance<S: Copy, A: Copy, F, K, D>(
    state: &Vec<Partical<S>>,
    zero: A,
    pull: &F,
    kick: &K,
    drift: &D,
) -> (r: Vec<Partical<S>>) where
    F: Fn(A, &Partical<S>, &Partical<S>) -> A,
    K: Fn(&Partical<S>, A) -> (S, S),
    D: Fn(S, S) -> S,

    requires
        pull_total(*pull),
        kick_total(*kick),
        drift_total(*drift),
    ensures
        r.len() == state.len(),
        forall|i: int| 0 <= i < state.len() ==> #[trigger] r[i].mass == state[i].mass,
        forall|i: int|
            0 <= i < state.len() ==> is_successor(*pull, *kick, *drift, state@, i, zero, #[trigger] r[i]),
{
    let mut r: Vec<Partical<S>> = Vec::new();
    let mut i: usize = 0;
    while i < state.len()
        invariant
            i <= state.len(),
            r.len() == i,
            pull_total(*pull),
            kick_total(*kick),
            drift_total(*drift),
            forall|k: int| 0 <= k < i ==> #[trigger] r[k].mass == state[k].mass,
            forall|k: int|
                0 <= k < i ==> is_successor(*pull, *kick, *drift, state@, k, zero, #[trigger] r[k]),
        decreases state.len() - i,
    {
        let p = &state[i];
        let a = net_pull(state, i, zero, pull);
        let v = kick(p, a);
        let x = drift(p.x, v.0);
        let y = drift(p.y, v.1);
        let q = Partical { x, y, velocity_x: v.0, velocity_y: v.1, mass: p.mass };
        assert(is_successor(*pull, *kick, *drift, state@, i as int, zero, q));
        r.push(q);
        i = i + 1;
    }
    r
}

/// A particle alone in its snapshot feels no pull: the sum over its peers is
/// empty, so its net pull is the starting value.
pub proof fn lemma_lone_particle_feels_nothing<S, A, F: Fn(A, &Partical<S>, &Partical<S>) -> A>(
    pull: F,
    state: Seq<Partical<S>>,
    zero: A,
    a: A,
)
    requires
        state.len() == 1,
        is_net_pull(pull, state, 0, zero, a),
    ensures
        a == zero,
{
    let acc = choose|acc: Seq<A>| is_pull_trace(pull, state, 0, zero, acc) && acc.last() == a;
    assert(pull_step(pull, state, 0, acc, 0));
}

/// Peers are told apart by index: in a pair, the net pull on either particle
/// is exactly one pull by the other, even where the two are equal in every
/// field.
pub proof fn lemma_pair_pulls_each_other<S, A, F: Fn(A, &Partical<S>, &Partical<S>) -> A>(
    pull: F,
    state: Seq<Partical<S>>,
    i: int,
    zero: A,
    a: A,
)
    requires
        state.len() == 2,
        0 <= i < 2,
        is_net_pull(pull, state, i, zero, a),
    ensures
        pull.ensures((zero, &state[i], &state[1 - i]), a),
{
    let acc = choose|acc: Seq<A>| is_pull_trace(pull, state, i, zero, acc) && acc.last() == a;
    assert(pull_step(pull, state, i, acc, 0));
    assert(pull_step(pull, state, i, acc, 1));
}

/// A particle alone in its snapshot moves with no pull at all: its new
/// velocity is its kick by the starting value, and it keeps its mass.
pub proof fn lemma_lone_particle_coasts<
    S,
    A,
    F: Fn(A, &Partical<S>, &Partical<S>) -> A,
    K: Fn(&Partical<S>, A) -> (S, S),
    D: Fn(S, S) -> S,
>(pull: F, kick: K, drift: D, state: Seq<Partical<S>>, zero: A, q: Partical<S>)
    requires
        state.len() == 1,
        is_successor(pull, kick, drift, state, 0, zero, q),
    ensures
        kick.ensures((&state[0], zero), (q.velocity_x, q.velocity_y)),
        drift.ensures((state[0].x, q.velocity_x), q.x),
        drift.ensures((state[0].y, q.velocity_y), q.y),
        q.mass == state[0].mass,
{
    let a = choose|a: A|
        is_net_pull(pull, state, 0, zero, a) && kick.ensures((&state[0], a), (q.velocity_x, q.velocity_y));
    lemma_lone_particle_feels_nothing(pull, state, zero, a);
}

} // verus!
