//! The escape-time rule: how many steps an orbit takes to leave the escape
//! radius, turned into a shade of gray.

use vstd::prelude::*;

verus! {

/// Number of escape tests made on one orbit before the point counts as bounded.
pub const MAX_STEPS: u8 = 255;

/// State `k` of `orbit` was tested and had not escaped, and `advance` made
/// the next state from it.
pub open spec fn linked<Z, E: Fn(&Z) -> bool, A: Fn(Z) -> Z>(
    escaped: E,
    advance: A,
    orbit: Seq<Z>,
    k: int,
) -> bool {
    &&& call_ensures(escaped, (&orbit[k],), false)
    &&& call_ensures(advance, (orbit[k],), orbit[k + 1])
}

/// `orbit` is a run of the iteration: each state but the last had not escaped
/// and is followed by the state that `advance` made from it.
pub open spec fn is_orbit<Z, E: Fn(&Z) -> bool, A: Fn(Z) -> Z>(
    escaped: E,
    advance: A,
    orbit: Seq<Z>,
) -> bool {
    forall|k: int| 0 <= k < orbit.len() - 1 ==> #[trigger] linked(escaped, advance, orbit, k)
}

/// The shade that the rule gives to an orbit that stopped at its last state:
/// `255 - n` when the `n`-th state (counting from zero) escaped within the
/// first 255 tests, black when 255 tests passed without an escape.
pub open spec fn orbit_shade<Z, E: Fn(&Z) -> bool>(escaped: E, orbit: Seq<Z>, shade: u8) -> bool {
    let n = orbit.len() - 1;
    &&& 0 <= n <= MAX_STEPS
    &&& if n < MAX_STEPS {
        call_ensures(escaped, (&orbit[n],), true) && shade == MAX_STEPS - n
    } else {
        shade == 0
    }
}

/// `shade` is a shade that the escape-time rule can give to the point `start`.
pub open spec fn escape_shade<Z, E: Fn(&Z) -> bool, A: Fn(Z) -> Z>(
    escaped: E,
    advance: A,
    start: Z,
    shade: u8,
) -> bool {
    exists|orbit: Seq<Z>|
        {
            &&& orbit.len() > 0
            &&& orbit[0] == start
            &&& #[trigger] is_orbit(escaped, advance, orbit)
            &&& orbit_shade(escaped, orbit, shade)
        }
}

/// Runs the escape-time iteration from `start` and returns its shade.
///
/// The state is tested with `escaped` before each step. The first state that
/// has escaped ends the run with shade `255 - n`, `n` being the number of steps
/// taken so far; a point that escapes at once is white. After 255 tests without
/// an escape the point counts as bounded and is black.
pub fn escape_time<Z, E: Fn(&Z) -> bool, A: Fn(Z) -> Z>(start: Z, escaped: E, advance: A) -> (shade: u8)
    requires
        forall|z: Z| call_requires(escaped, (&z,)),
        forall|z: Z| call_requires(advance, (z,)),
    ensures
        escape_shade(escaped, advance, start, shade),
{
    let mut z = start;
    let mut steps: u8 = 0;
    let ghost mut orbit: Seq<Z> = seq![start];
    while steps < MAX_STEPS
        invariant
            forall|z: Z| call_requires(escaped, (&z,)),
            forall|z: Z| call_requires(advance, (z,)),
            orbit.len() == steps + 1,
            orbit[0] == start,
            orbit.last() == z,
            is_orbit(escaped, advance, orbit),
        decreases MAX_STEPS - steps,
    {
        if escaped(&z) {
            assert(orbit_shade(escaped, orbit, (MAX_STEPS - steps) as u8));
            return MAX_STEPS - steps;
        }
        let ghost before = orbit;
        z = advance(z);
        steps = steps + 1;
        proof {
            orbit = before.push(z);
            assert forall|k: int| 0 <= k < orbit.len() - 1 implies #[trigger] linked(
                escaped,
                advance,
                orbit,
                k,
            ) by {
                if k < before.len() - 1 {
                    assert(linked(escaped, advance, before, k));
                }
            }
        }
    }
    assert(orbit_shade(escaped, orbit, 0));
    0
}

/// `escaped` gives one answer for each state.
pub open spec fn single_answer<Z, E: Fn(&Z) -> bool>(escaped: E) -> bool {
    forall|z: Z, a: bool, b: bool|
        #[trigger] call_ensures(escaped, (&z,), a) && #[trigger] call_ensures(escaped, (&z,), b)
            ==> a == b
}

/// `advance` leads from each state to one next state.
pub open spec fn single_step<Z, A: Fn(Z) -> Z>(advance: A) -> bool {
    forall|z: Z, a: Z, b: Z|
        #[trigger] call_ensures(advance, (z,), a) && #[trigger] call_ensures(advance, (z,), b)
            ==> a == b
}

/// Two orbits from the same start hold the same states as far as both reach,
/// when `advance` leads to one next state.
proof fn lemma_orbits_agree<Z, E: Fn(&Z) -> bool, A: Fn(Z) -> Z>(
    escaped: E,
    advance: A,
    first: Seq<Z>,
    second: Seq<Z>,
    k: int,
)
    requires
        is_orbit(escaped, advance, first),
        is_orbit(escaped, advance, second),
        0 <= k < first.len(),
        k < second.len(),
        first[0] == second[0],
        single_step(advance),
    ensures
        first[k] == second[k],
    decreases k,
{
    if k > 0 {
        lemma_orbits_agree(escaped, advance, first, second, k - 1);
        assert(linked(escaped, advance, first, k - 1));
        assert(linked(escaped, advance, second, k - 1));
    }
}

/// An orbit that the rule has shaded is not outrun by another orbit from the
/// same start, when the test and the step are single-valued.
proof fn lemma_orbit_not_outrun<Z, E: Fn(&Z) -> bool, A: Fn(Z) -> Z>(
    escaped: E,
    advance: A,
    short: Seq<Z>,
    long: Seq<Z>,
    shade: u8,
)
    requires
        is_orbit(escaped, advance, short),
        is_orbit(escaped, advance, long),
        0 < short.len(),
        0 < long.len() <= MAX_STEPS + 1,
        short[0] == long[0],
        orbit_shade(escaped, short, shade),
        single_answer(escaped),
        single_step(advance),
    ensures
        long.len() <= short.len(),
{
    if short.len() < long.len() {
        let n = short.len() - 1;
        lemma_orbits_agree(escaped, advance, short, long, n);
        assert(linked(escaped, advance, long, n));
    }
}

/// The escape-time rule is repeatable: a point has one shade, provided that
/// the escape test gives one answer for each state and the step leads to one
/// next state.
pub proof fn lemma_shade_unique<Z, E: Fn(&Z) -> bool, A: Fn(Z) -> Z>(
    escaped: E,
    advance: A,
    start: Z,
    first: u8,
    second: u8,
)
    requires
        escape_shade(escaped, advance, start, first),
        escape_shade(escaped, advance, start, second),
        single_answer(escaped),
        single_step(advance),
    ensures
        first == second,
{
    let a = choose|orbit: Seq<Z>|
        {
            &&& orbit.len() > 0
            &&& orbit[0] == start
            &&& #[trigger] is_orbit(escaped, advance, orbit)
            &&& orbit_shade(escaped, orbit, first)
        };
    let b = choose|orbit: Seq<Z>|
        {
            &&& orbit.len() > 0
            &&& orbit[0] == start
            &&& #[trigger] is_orbit(escaped, advance, orbit)
            &&& orbit_shade(escaped, orbit, second)
        };
    lemma_orbit_not_outrun(escaped, advance, a, b, first);
    lemma_orbit_not_outrun(escaped, advance, b, a, second);
}

/// The state that `n` steps of `step` lead to from `start`.
pub open spec fn orbit_at<Z>(step: spec_fn(Z) -> Z, start: Z, n: nat) -> Z
    decreases n,
{
    if n == 0 {
        start
    } else {
        step(orbit_at(step, start, (n - 1) as nat))
    }
}

/// The state after `n` steps is the first on the orbit of `start` that has
/// escaped.
pub open spec fn first_escape<Z>(
    test: spec_fn(Z) -> bool,
    step: spec_fn(Z) -> Z,
    start: Z,
    n: nat,
) -> bool {
    &&& test(orbit_at(step, start, n))
    &&& forall|m: nat| m < n ==> !test(#[trigger] orbit_at(step, start, m))
}

/// The escape-time rule over a mathematical orbit: a shade above black says
/// that the first escape came after `255 - shade` steps, and black says that
/// none of the first 255 states had escaped.
pub open spec fn shade_in_model<Z>(
    test: spec_fn(Z) -> bool,
    step: spec_fn(Z) -> Z,
    start: Z,
    shade: u8,
) -> bool {
    if shade == 0 {
        forall|n: nat| n < MAX_STEPS ==> !test(#[trigger] orbit_at(step, start, n))
    } else {
        first_escape(test, step, start, (MAX_STEPS - shade) as nat)
    }
}

/// Whatever `escaped` answers is what `test` says.
pub open spec fn computes_test<Z, E: Fn(&Z) -> bool>(escaped: E, test: spec_fn(Z) -> bool) -> bool {
    forall|z: Z, answer: bool| #[trigger] call_ensures(escaped, (&z,), answer) ==> answer == test(z)
}

/// Whatever `advance` returns is what `step` says.
pub open spec fn computes_step<Z, A: Fn(Z) -> Z>(advance: A, step: spec_fn(Z) -> Z) -> bool {
    forall|z: Z, next: Z| #[trigger] call_ensures(advance, (z,), next) ==> next == step(z)
}

/// An orbit of closures that compute `step` holds the states of the
/// mathematical orbit.
proof fn lemma_orbit_in_model<Z, E: Fn(&Z) -> bool, A: Fn(Z) -> Z>(
    escaped: E,
    advance: A,
    step: spec_fn(Z) -> Z,
    orbit: Seq<Z>,
    k: nat,
)
    requires
        is_orbit(escaped, advance, orbit),
        computes_step(advance, step),
        k < orbit.len(),
    ensures
        orbit[k as int] == orbit_at(step, orbit[0], k),
    decreases k,
{
    if k > 0 {
        let j = (k - 1) as nat;
        lemma_orbit_in_model(escaped, advance, step, orbit, j);
        assert(linked(escaped, advance, orbit, j as int));
    }
}

/// The shade that `escape_time` returns is the one that the escape-time rule
/// gives on the mathematical orbit, when the closures compute `test` and
/// `step`.
pub proof fn lemma_shade_in_model<Z, E: Fn(&Z) -> bool, A: Fn(Z) -> Z>(
    escaped: E,
    advance: A,
    test: spec_fn(Z) -> bool,
    step: spec_fn(Z) -> Z,
    start: Z,
    shade: u8,
)
    requires
        escape_shade(escaped, advance, start, shade),
        computes_test(escaped, test),
        computes_step(advance, step),
    ensures
        shade_in_model(test, step, start, shade),
{
    let orbit = choose|orbit: Seq<Z>|
        {
            &&& orbit.len() > 0
            &&& orbit[0] == start
            &&& #[trigger] is_orbit(escaped, advance, orbit)
            &&& orbit_shade(escaped, orbit, shade)
        };
    let n = (orbit.len() - 1) as nat;
    assert forall|m: nat| m < n implies !test(#[trigger] orbit_at(step, start, m)) by {
        lemma_orbit_in_model(escaped, advance, step, orbit, m);
        assert(linked(escaped, advance, orbit, m as int));
    }
    if n < MAX_STEPS {
        lemma_orbit_in_model(escaped, advance, step, orbit, n);
    }
}

} // verus!
