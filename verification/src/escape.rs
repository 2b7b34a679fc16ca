//! The escape-time iteration: advancing the orbit of a point until it leaves
//! the escape radius or the iteration cap is reached, and the grey level that
//! is recorded for the point.
//!
//! The arithmetic of one iteration is the caller's: a function `advance` that
//! takes the state `z` of the orbit and the point `c`, and either reports that
//! the orbit escaped or hands back the next state.

use vstd::prelude::*;

verus! {

/// The iteration cap of the default view.
pub const MAX_ITERATIONS: u16 = 255;

/// The brightest grey level; later escapes are recorded as this one.
pub const MAX_INTENSITY: u8 = 255;

/// The grey level of a point whose orbit stays inside the escape radius.
pub const IN_SET_INTENSITY: u8 = 0;

/// What one iteration does to an orbit.
#[derive(Debug)]
pub enum Step<Z> {
    /// The orbit left the escape radius in this iteration.
    Escaped,
    /// The orbit stayed inside; the payload is the state for the next iteration.
    Bounded(Z),
}

/// `z` is a state that the orbit of `c` can be in after `n` iterations from
/// `origin`, none of which escaped.
pub open spec fn reaches<Z, C, A: Fn(Z, C) -> Step<Z>>(
    advance: A,
    origin: Z,
    c: C,
    n: nat,
    z: Z,
) -> bool
    decreases n,
{
    if n == 0 {
        z == origin
    } else {
        exists|p: Z| #[trigger]
            advance.ensures((p, c), Step::Bounded(z)) && reaches(
                advance,
                origin,
                c,
                (n - 1) as nat,
                p,
            )
    }
}

/// The orbit of `c` can escape in iteration `i` (counted from 0), and in none
/// before it.
pub open spec fn escapes_at<Z, C, A: Fn(Z, C) -> Step<Z>>(
    advance: A,
    origin: Z,
    c: C,
    i: nat,
) -> bool {
    exists|z: Z| #[trigger]
        reaches(advance, origin, c, i, z) && advance.ensures((z, c), Step::Escaped)
}

/// The orbit of `c` can run through `n` iterations without escaping.
pub open spec fn stays_bounded<Z, C, A: Fn(Z, C) -> Step<Z>>(
    advance: A,
    origin: Z,
    c: C,
    n: nat,
) -> bool {
    exists|z: Z| #[trigger] reaches(advance, origin, c, n, z)
}

/// `found` is a result that the escape-time iteration can have for `c` under
/// the cap `max_iterations`: the first iteration in which the orbit escaped, or
/// `None` when it ran through all of them.
pub open spec fn is_outcome<Z, C, A: Fn(Z, C) -> Step<Z>>(
    advance: A,
    origin: Z,
    c: C,
    max_iterations: u16,
    found: Option<u16>,
) -> bool {
    match found {
        Some(i) => i < max_iterations && escapes_at(advance, origin, c, i as nat),
        None => stays_bounded(advance, origin, c, max_iterations as nat),
    }
}

/// `advance` may be called on every state that the orbit of `c` can be in
/// before iteration `max_iterations`.
pub open spec fn can_advance<Z, C, A: Fn(Z, C) -> Step<Z>>(
    advance: A,
    origin: Z,
    c: C,
    max_iterations: u16,
) -> bool {
    forall|n: nat, z: Z|
        n < max_iterations && #[trigger] reaches(advance, origin, c, n, z) ==> advance.requires(
            (z, c),
        )
}

/// The grey level recorded for a result of the iteration: the escape iteration,
/// held to the brightest level, and the level of the set where nothing escaped.
pub open spec fn intensity_of(found: Option<u16>) -> u8 {
    match found {
        Some(i) => if i < MAX_INTENSITY {
            i as u8
        } else {
            MAX_INTENSITY
        },
        None => IN_SET_INTENSITY,
    }
}

/// `level` is a grey level that the point `c` can get under the cap
/// `max_iterations`.
pub open spec fn is_escape_level<Z, C, A: Fn(Z, C) -> Step<Z>>(
    advance: A,
    origin: Z,
    c: C,
    max_iterations: u16,
    level: u8,
) -> bool {
    exists|found: Option<u16>| #[trigger]
        is_outcome(advance, origin, c, max_iterations, found) && level == intensity_of(found)
}

/// `advance` is a function of the state and the point: it has one result on
/// each.
pub open spec fn deterministic<Z, C, A: Fn(Z, C) -> Step<Z>>(advance: A) -> bool {
    forall|z: Z, c: C, a: Step<Z>, b: Step<Z>|
        #![trigger advance.ensures((z, c), a), advance.ensures((z, c), b)]
        advance.ensures((z, c), a) && advance.ensures((z, c), b) ==> a == b
}

/// Advances the orbit of `c` from `origin` until it escapes, at most
/// `max_iterations` times, and returns the iteration in which it escaped.
pub fn first_escape<Z, C: Copy, A: Fn(Z, C) -> Step<Z>>(
    c: C,
    max_iterations: u16,
    origin: Z,
    advance: &A,
) -> (found: Option<u16>)
    requires
        can_advance(*advance, origin, c, max_iterations),
    ensures
        is_outcome(*advance, origin, c, max_iterations, found),
{
    let mut z: Z = origin;
    let mut i: u16 = 0;
    while i < max_iterations
        invariant
            i <= max_iterations,
            reaches(*advance, origin, c, i as nat, z),
            can_advance(*advance, origin, c, max_iterations),
        decreases max_iterations - i,
    {
        let ghost before = z;
        match advance(z, c) {
            Step::Escaped => {
                return Some(i);
            },
            Step::Bounded(next) => {
                z = next;
            },
        }
        i += 1;
        proof {
            lemma_reaches_next(*advance, origin, c, (i - 1) as nat, before, z);
        }
    }
    None
}

/// Computes the grey level recorded for a result of the iteration.
pub fn intensity(found: Option<u16>) -> (level: u8)
    ensures
        level == intensity_of(found),
{
    match found {
        Some(i) => if i < MAX_INTENSITY as u16 {
            i as u8
        } else {
            MAX_INTENSITY
        },
        None => IN_SET_INTENSITY,
    }
}

/// Runs the escape-time iteration for the point `c` and returns its grey
/// level: the iteration in which its orbit escaped, held to 255, or 0 when the
/// orbit ran through `max_iterations` iterations.
pub fn calculate_escape<Z, C: Copy, A: Fn(Z, C) -> Step<Z>>(
    c: C,
    max_iterations: u16,
    origin: Z,
    advance: &A,
) -> (level: u8)
    requires
        can_advance(*advance, origin, c, max_iterations),
    ensures
        is_escape_level(*advance, origin, c, max_iterations, level),
{
    let found: Option<u16> = first_escape(c, max_iterations, origin, advance);
    intensity(found)
}

/// Before any iteration the orbit is at its origin.
pub proof fn lemma_reaches_origin<Z, C, A: Fn(Z, C) -> Step<Z>>(
    advance: A,
    origin: Z,
    c: C,
    z: Z,
)
    ensures
        reaches(advance, origin, c, 0, z) <==> z == origin,
{
}

/// A state reached after one iteration or more comes, by an iteration that
/// did not escape, from a state reached one iteration earlier.
pub proof fn lemma_reaches_previous<Z, C, A: Fn(Z, C) -> Step<Z>>(
    advance: A,
    origin: Z,
    c: C,
    n: nat,
    z: Z,
) -> (p: Z)
    requires
        n > 0,
        reaches(advance, origin, c, n, z),
    ensures
        advance.ensures((p, c), Step::Bounded(z)),
        reaches(advance, origin, c, (n - 1) as nat, p),
{
    choose|p: Z| #[trigger]
        advance.ensures((p, c), Step::Bounded(z)) && reaches(
            advance,
            origin,
            c,
            (n - 1) as nat,
            p,
        )
}

/// One more iteration that does not escape extends what the orbit reaches.
pub proof fn lemma_reaches_next<Z, C, A: Fn(Z, C) -> Step<Z>>(
    advance: A,
    origin: Z,
    c: C,
    n: nat,
    p: Z,
    z: Z,
)
    requires
        reaches(advance, origin, c, n, p),
        advance.ensures((p, c), Step::Bounded(z)),
    ensures
        reaches(advance, origin, c, n + 1, z),
{
}

/// Under a deterministic `advance` the orbit is in one state after `n`
/// iterations.
pub proof fn lemma_reaches_unique<Z, C, A: Fn(Z, C) -> Step<Z>>(
    advance: A,
    origin: Z,
    c: C,
    n: nat,
    z1: Z,
    z2: Z,
)
    requires
        deterministic::<Z, C, A>(advance),
        reaches(advance, origin, c, n, z1),
        reaches(advance, origin, c, n, z2),
    ensures
        z1 == z2,
    decreases n,
{
    if n > 0 {
        let p1 = lemma_reaches_previous(advance, origin, c, n, z1);
        let p2 = lemma_reaches_previous(advance, origin, c, n, z2);
        lemma_reaches_unique(advance, origin, c, (n - 1) as nat, p1, p2);
        assert(Step::Bounded(z1) == Step::Bounded(z2));
    } else {
        lemma_reaches_origin(advance, origin, c, z1);
        lemma_reaches_origin(advance, origin, c, z2);
    }
}

/// An orbit that runs through `n` iterations runs through any smaller number
/// of them.
pub proof fn lemma_bounded_prefix<Z, C, A: Fn(Z, C) -> Step<Z>>(
    advance: A,
    origin: Z,
    c: C,
    m: nat,
    n: nat,
)
    requires
        m <= n,
        stays_bounded(advance, origin, c, n),
    ensures
        stays_bounded(advance, origin, c, m),
    decreases n,
{
    if m < n {
        let z = choose|z: Z| #[trigger] reaches(advance, origin, c, n, z);
        let p = lemma_reaches_previous(advance, origin, c, n, z);
        lemma_bounded_prefix(advance, origin, c, m, (n - 1) as nat);
    }
}

/// An orbit that escapes in iteration `i` has run through `i` iterations.
pub proof fn lemma_escape_means_bounded_before<Z, C, A: Fn(Z, C) -> Step<Z>>(
    advance: A,
    origin: Z,
    c: C,
    i: nat,
)
    requires
        escapes_at(advance, origin, c, i),
    ensures
        stays_bounded(advance, origin, c, i),
{
    let z = choose|z: Z| #[trigger]
        reaches(advance, origin, c, i, z) && advance.ensures((z, c), Step::Escaped);
    assert(reaches(advance, origin, c, i, z));
}

/// Under a deterministic `advance`, an orbit that escapes in iteration `i` does
/// not run through more than `i` iterations.
pub proof fn lemma_escape_ends_orbit<Z, C, A: Fn(Z, C) -> Step<Z>>(
    advance: A,
    origin: Z,
    c: C,
    i: nat,
    n: nat,
)
    requires
        deterministic::<Z, C, A>(advance),
        escapes_at(advance, origin, c, i),
        i < n,
    ensures
        !stays_bounded(advance, origin, c, n),
{
    if stays_bounded(advance, origin, c, n) {
        lemma_bounded_prefix(advance, origin, c, i + 1, n);
        let z = choose|z: Z| #[trigger]
            reaches(advance, origin, c, i, z) && advance.ensures((z, c), Step::Escaped);
        let w = choose|w: Z| #[trigger] reaches(advance, origin, c, i + 1, w);
        let p = lemma_reaches_previous(advance, origin, c, i + 1, w);
        lemma_reaches_unique(advance, origin, c, i, z, p);
        assert(Step::<Z>::Escaped == Step::Bounded(w));
    }
}

/// Determinism of the iteration: where `advance` is a function of its
/// arguments, the same point under the same cap has one result.
pub proof fn lemma_first_escape_is_unique<Z, C, A: Fn(Z, C) -> Step<Z>>(
    advance: A,
    origin: Z,
    c: C,
    max_iterations: u16,
    first: Option<u16>,
    second: Option<u16>,
)
    requires
        deterministic::<Z, C, A>(advance),
        is_outcome(advance, origin, c, max_iterations, first),
        is_outcome(advance, origin, c, max_iterations, second),
    ensures
        first == second,
{
    let cap = max_iterations as nat;
    match (first, second) {
        (Some(i), Some(j)) => {
            if i < j {
                lemma_escape_means_bounded_before(advance, origin, c, j as nat);
                lemma_escape_ends_orbit(advance, origin, c, i as nat, j as nat);
            } else if j < i {
                lemma_escape_means_bounded_before(advance, origin, c, i as nat);
                lemma_escape_ends_orbit(advance, origin, c, j as nat, i as nat);
            }
        },
        (Some(i), None) => {
            lemma_escape_ends_orbit(advance, origin, c, i as nat, cap);
        },
        (None, Some(j)) => {
            lemma_escape_ends_orbit(advance, origin, c, j as nat, cap);
        },
        (None, None) => {},
    }
}

/// Determinism of the grey level: where `advance` is a function of its
/// arguments, the same point under the same cap always gets the same level.
pub proof fn lemma_escape_level_is_unique<Z, C, A: Fn(Z, C) -> Step<Z>>(
    advance: A,
    origin: Z,
    c: C,
    max_iterations: u16,
    first: u8,
    second: u8,
)
    requires
        deterministic::<Z, C, A>(advance),
        is_escape_level(advance, origin, c, max_iterations, first),
        is_escape_level(advance, origin, c, max_iterations, second),
    ensures
        first == second,
{
    let found1 = choose|found: Option<u16>| #[trigger]
        is_outcome(advance, origin, c, max_iterations, found) && first == intensity_of(found);
    let found2 = choose|found: Option<u16>| #[trigger]
        is_outcome(advance, origin, c, max_iterations, found) && second == intensity_of(found);
    lemma_first_escape_is_unique(advance, origin, c, max_iterations, found1, found2);
}

/// Refinement of the iteration: raising the cap keeps the iteration recorded
/// for a point that escaped under the lower cap, and a point that does not
/// escape under the higher cap did not escape under the lower one. So a higher
/// cap can turn a point of the set into an escaping one, never the reverse.
pub proof fn lemma_raising_cap_refines<Z, C, A: Fn(Z, C) -> Step<Z>>(
    advance: A,
    origin: Z,
    c: C,
    lower: u16,
    higher: u16,
    under_lower: Option<u16>,
    under_higher: Option<u16>,
)
    requires
        deterministic::<Z, C, A>(advance),
        lower <= higher,
        is_outcome(advance, origin, c, lower, under_lower),
        is_outcome(advance, origin, c, higher, under_higher),
    ensures
        under_lower is Some ==> under_higher == under_lower,
        under_higher is None ==> under_lower is None,
        intensity_of(under_lower) <= intensity_of(under_higher),
{
    if under_lower is Some {
        assert(is_outcome(advance, origin, c, higher, under_lower));
        lemma_first_escape_is_unique(advance, origin, c, higher, under_lower, under_higher);
    }
}

/// Refinement of the grey level: under a higher cap no point gets darker.
pub proof fn lemma_raising_cap_never_darkens<Z, C, A: Fn(Z, C) -> Step<Z>>(
    advance: A,
    origin: Z,
    c: C,
    lower: u16,
    higher: u16,
    under_lower: u8,
    under_higher: u8,
)
    requires
        deterministic::<Z, C, A>(advance),
        lower <= higher,
        is_escape_level(advance, origin, c, lower, under_lower),
        is_escape_level(advance, origin, c, higher, under_higher),
    ensures
        under_lower <= under_higher,
{
    let found1 = choose|found: Option<u16>| #[trigger]
        is_outcome(advance, origin, c, lower, found) && under_lower == intensity_of(found);
    let found2 = choose|found: Option<u16>| #[trigger]
        is_outcome(advance, origin, c, higher, found) && under_higher == intensity_of(found);
    lemma_raising_cap_refines(advance, origin, c, lower, higher, found1, found2);
}

} // verus!
