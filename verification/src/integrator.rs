//! Following one sample's path from the camera ray to its end.
//!
//! The caller says what a ray meets and how a surface sends it on; this
//! module runs the bounces. At every bounce the candidates of the ray are
//! asked for, the nearest hit among them is found by comparing all their
//! distances, and that candidate alone is scattered. The path ends when the
//! ray escapes, when a terminal surface is struck, or when the bounce limit
//! is reached.

use vstd::prelude::*;
use crate::nearest::is_nearest;
use crate::nearest::no_hit;
use crate::path::advanced;
use crate::path::composited;
use crate::path::layered;
use crate::path::lemma_composite_of_no_hit;
use crate::path::casts_left;
use crate::path::fresh;
use crate::path::launched;
use crate::path::lemma_advance_keeps_valid;
use crate::path::lemma_casts_run_out;
use crate::path::lemma_launch_keeps_valid;
use crate::path::path_wf;
use crate::path::Outcome;
use crate::path::Path;
use crate::path::PathView;

verus! {

/// A candidate that the ray hits: the distance of the hit, as a distance
/// key, and whatever the caller needs to scatter the ray off it. A probe
/// names a candidate that the ray misses, or whose intersection is
/// degenerate, as `None`.
pub struct Found<X> {
    pub distance: u64,
    pub candidate: X,
}

/// What scattering a ray off a candidate came to: the record of the hit,
/// whether the surface is terminal, and the ray that goes on. The ray of a
/// terminal surface is not looked at.
pub struct Scattered<H, R> {
    pub record: H,
    pub terminal: bool,
    pub bounced: R,
}

/// The distances of the candidates, in their order; none for a candidate
/// that is not hit.
pub open spec fn distances_of<X>(found: Seq<Option<Found<X>>>) -> Seq<Option<u64>> {
    Seq::new(
        found.len(),
        |k: int|
            match found[k] {
                Some(hit) => Some(hit.distance),
                None => None,
            },
    )
}

/// One bounce takes a bouncing path `v` with the ray `ray` to the path
/// `next` with the ray `onward`: the probe names the candidates of the ray;
/// where none is hit the ray escapes and stays as it is; otherwise the
/// nearest candidate is scattered and its hit recorded, and the ray that
/// goes on is the bounced one unless the surface is terminal.
pub open spec fn stepped<H, R, X, P: Fn(&R) -> Vec<Option<Found<X>>>, S: Fn(&R, &X) -> Scattered<H, R>>(
    v: PathView<H>,
    ray: R,
    probe: P,
    scatter: S,
    next: PathView<H>,
    onward: R,
) -> bool {
    exists|found: Vec<Option<Found<X>>>| #[trigger]
        call_ensures(probe, (&ray,), found) && if no_hit(distances_of(found@)) {
            next == advanced(v, Outcome::Escaped) && onward == ray
        } else {
            exists|i: int, hit: Scattered<H, R>|
                is_nearest(distances_of(found@), i) && #[trigger] call_ensures(
                    scatter,
                    (&ray, &found@[i]->Some_0.candidate),
                    hit,
                ) && next == advanced(v, Outcome::Hit { record: hit.record, terminal: hit.terminal })
                    && onward == (if hit.terminal {
                    ray
                } else {
                    hit.bounced
                })
        }
}

/// `states` and `rays` tell the path bounce by bounce: they begin with the
/// launched path and the camera ray, every entry but the last is a bouncing
/// path that one bounce takes to the next entry, and the last entry bounces
/// no more.
pub open spec fn trail<H, R, X, P: Fn(&R) -> Vec<Option<Found<X>>>, S: Fn(&R, &X) -> Scattered<H, R>>(
    max_bounces: nat,
    camera_ray: R,
    probe: P,
    scatter: S,
    states: Seq<PathView<H>>,
    rays: Seq<R>,
) -> bool {
    &&& states.len() > 0
    &&& rays.len() == states.len()
    &&& states[0] == launched(fresh::<H>(max_bounces))
    &&& rays[0] == camera_ray
    &&& forall|k: int|
        0 <= k < states.len() - 1 ==> (#[trigger] states[k]).state is Bouncing && stepped(
            states[k],
            rays[k],
            probe,
            scatter,
            states[k + 1],
            rays[k + 1],
        )
    &&& !(states[states.len() - 1].state is Bouncing)
}

/// The path `end` with the ray `last` is where following the camera ray leads.
pub open spec fn traced<H, R, X, P: Fn(&R) -> Vec<Option<Found<X>>>, S: Fn(&R, &X) -> Scattered<H, R>>(
    max_bounces: nat,
    camera_ray: R,
    probe: P,
    scatter: S,
    end: PathView<H>,
    last: R,
) -> bool {
    exists|states: Seq<PathView<H>>, rays: Seq<R>| #[trigger]
        trail(max_bounces, camera_ray, probe, scatter, states, rays) && states[states.len() - 1]
            == end && rays[rays.len() - 1] == last
}

/// One bounce keeps a path valid and uses up one of its casts.
pub proof fn lemma_step_keeps_valid<
    H,
    R,
    X,
    P: Fn(&R) -> Vec<Option<Found<X>>>,
    S: Fn(&R, &X) -> Scattered<H, R>,
>(v: PathView<H>, ray: R, probe: P, scatter: S, next: PathView<H>, onward: R)
    requires
        path_wf(v),
        v.state is Bouncing,
        stepped(v, ray, probe, scatter, next, onward),
    ensures
        path_wf(next),
        next.max_bounces == v.max_bounces,
        casts_left(next) < casts_left(v),
        next.hits.len() <= v.hits.len() + 1,
{
    let found = choose|found: Vec<Option<Found<X>>>| #[trigger]
        call_ensures(probe, (&ray,), found) && if no_hit(distances_of(found@)) {
            next == advanced(v, Outcome::Escaped) && onward == ray
        } else {
            exists|i: int, hit: Scattered<H, R>|
                is_nearest(distances_of(found@), i) && #[trigger] call_ensures(
                    scatter,
                    (&ray, &found@[i]->Some_0.candidate),
                    hit,
                ) && next == advanced(v, Outcome::Hit { record: hit.record, terminal: hit.terminal })
                    && onward == (if hit.terminal {
                    ray
                } else {
                    hit.bounced
                })
        };
    if no_hit(distances_of(found@)) {
        lemma_advance_keeps_valid(v, Outcome::<H>::Escaped);
        lemma_casts_run_out(v, Outcome::<H>::Escaped);
    } else {
        let (i, hit) = choose|i: int, hit: Scattered<H, R>|
            is_nearest(distances_of(found@), i) && #[trigger] call_ensures(
                scatter,
                (&ray, &found@[i]->Some_0.candidate),
                hit,
            ) && next == advanced(v, Outcome::Hit { record: hit.record, terminal: hit.terminal })
                && onward == (if hit.terminal {
                ray
            } else {
                hit.bounced
            });
        let outcome = Outcome::Hit { record: hit.record, terminal: hit.terminal };
        lemma_advance_keeps_valid(v, outcome);
        lemma_casts_run_out(v, outcome);
    }
}

/// Along a trail every path is valid, has recorded no more hits than
/// bounces were made, and has used up a cast with every bounce.
pub proof fn lemma_trail_keeps_valid<
    H,
    R,
    X,
    P: Fn(&R) -> Vec<Option<Found<X>>>,
    S: Fn(&R, &X) -> Scattered<H, R>,
>(
    max_bounces: nat,
    camera_ray: R,
    probe: P,
    scatter: S,
    states: Seq<PathView<H>>,
    rays: Seq<R>,
    k: int,
)
    requires
        max_bounces <= u32::MAX,
        trail(max_bounces, camera_ray, probe, scatter, states, rays),
        0 <= k < states.len(),
    ensures
        path_wf(states[k]),
        states[k].max_bounces == max_bounces,
        states[k].hits.len() <= k,
        casts_left(states[k]) + k <= max_bounces,
    decreases k,
{
    lemma_launch_keeps_valid(fresh::<H>(max_bounces));
    if k > 0 {
        lemma_trail_keeps_valid(max_bounces, camera_ray, probe, scatter, states, rays, k - 1);
        assert(states[k - 1].state is Bouncing);
        lemma_step_keeps_valid(
            states[k - 1],
            rays[k - 1],
            probe,
            scatter,
            states[k],
            rays[k],
        );
    }
}

/// A traced path is over and valid: it has recorded no more hits than its
/// bounce limit allows.
pub proof fn lemma_traced_path_is_over<
    H,
    R,
    X,
    P: Fn(&R) -> Vec<Option<Found<X>>>,
    S: Fn(&R, &X) -> Scattered<H, R>,
>(max_bounces: nat, camera_ray: R, probe: P, scatter: S, end: PathView<H>, last: R)
    requires
        max_bounces <= u32::MAX,
        traced(max_bounces, camera_ray, probe, scatter, end, last),
    ensures
        end.state is Terminal,
        path_wf(end),
        end.max_bounces == max_bounces,
        end.hits.len() <= max_bounces,
{
    let (states, rays) = choose|states: Seq<PathView<H>>, rays: Seq<R>| #[trigger]
        trail(max_bounces, camera_ray, probe, scatter, states, rays) && states[states.len() - 1]
            == end && rays[rays.len() - 1] == last;
    lemma_trail_keeps_valid(
        max_bounces,
        camera_ray,
        probe,
        scatter,
        states,
        rays,
        states.len() - 1,
    );
    if states.len() == 1 {
        lemma_launch_keeps_valid(fresh::<H>(max_bounces));
    } else {
        lemma_trail_keeps_valid(
            max_bounces,
            camera_ray,
            probe,
            scatter,
            states,
            rays,
            states.len() - 2,
        );
    }
}

/// Where the camera ray hits no candidate, the traced path has recorded
/// nothing and the last ray is the camera ray: what is shaded is the
/// background that the camera ray looks at, and nothing else.
pub proof fn lemma_missing_every_candidate_records_nothing<
    H,
    R,
    X,
    P: Fn(&R) -> Vec<Option<Found<X>>>,
    S: Fn(&R, &X) -> Scattered<H, R>,
>(max_bounces: nat, camera_ray: R, probe: P, scatter: S, end: PathView<H>, last: R)
    requires
        max_bounces <= u32::MAX,
        traced(max_bounces, camera_ray, probe, scatter, end, last),
        forall|found: Vec<Option<Found<X>>>| #[trigger]
            call_ensures(probe, (&camera_ray,), found) ==> no_hit(distances_of(found@)),
    ensures
        end.state is Terminal,
        end.hits == Seq::<H>::empty(),
        last == camera_ray,
{
    let (states, rays) = choose|states: Seq<PathView<H>>, rays: Seq<R>| #[trigger]
        trail(max_bounces, camera_ray, probe, scatter, states, rays) && states[states.len() - 1]
            == end && rays[rays.len() - 1] == last;
    lemma_traced_path_is_over(max_bounces, camera_ray, probe, scatter, end, last);
    if states.len() > 1 {
        assert(states[0].state is Bouncing);
        assert(stepped(states[0], rays[0], probe, scatter, states[1], rays[1]));
        assert(states[1] == advanced(states[0], Outcome::<H>::Escaped));
        if states.len() > 2 {
            assert(states[1].state is Bouncing);
        }
    }
}

/// Where candidate `k` is the nearest hit of the camera ray, and that
/// candidate is terminal or one bounce is all that is allowed, the traced
/// path has recorded one hit: the one that scattering candidate `k` gives,
/// whatever other candidates the probe names and in whatever order.
pub proof fn lemma_nearest_hit_is_recorded<
    H,
    R,
    X,
    P: Fn(&R) -> Vec<Option<Found<X>>>,
    S: Fn(&R, &X) -> Scattered<H, R>,
>(
    max_bounces: nat,
    camera_ray: R,
    probe: P,
    scatter: S,
    end: PathView<H>,
    last: R,
    found: Vec<Option<Found<X>>>,
    k: int,
    hit: Scattered<H, R>,
)
    requires
        0 < max_bounces <= u32::MAX,
        traced(max_bounces, camera_ray, probe, scatter, end, last),
        forall|other: Vec<Option<Found<X>>>| #[trigger]
            call_ensures(probe, (&camera_ray,), other) ==> other == found,
        is_nearest(distances_of(found@), k),
        forall|other: Scattered<H, R>| #[trigger]
            call_ensures(scatter, (&camera_ray, &found@[k]->Some_0.candidate), other) ==> other
                == hit,
        hit.terminal || max_bounces == 1,
    ensures
        end.hits == seq![hit.record],
        last == (if hit.terminal {
            camera_ray
        } else {
            hit.bounced
        }),
{
    let (states, rays) = choose|states: Seq<PathView<H>>, rays: Seq<R>| #[trigger]
        trail(max_bounces, camera_ray, probe, scatter, states, rays) && states[states.len() - 1]
            == end && rays[rays.len() - 1] == last;
    assert(states[0].state is Bouncing);
    assert(stepped(states[0], rays[0], probe, scatter, states[1], rays[1]));
    let distances = distances_of(found@);
    crate::nearest::lemma_nearest_or_no_hit(distances, k);
    assert forall|i: int| is_nearest(distances, i) implies i == k by {
        crate::nearest::lemma_nearest_is_unique(distances, i, k);
    }
    let outcome = Outcome::Hit { record: hit.record, terminal: hit.terminal };
    assert(states[1] == advanced(states[0], outcome));
    assert(states[1].hits =~= seq![hit.record]);
    if states.len() > 2 {
        assert(states[1].state is Bouncing);
    }
}

/// Where the camera ray hits candidate `k` and no other, candidate `k` is
/// the nearest hit, wherever it stands among the candidates: the ray
/// strikes it as if it stood alone.
pub proof fn lemma_only_hit_is_recorded<
    H,
    R,
    X,
    P: Fn(&R) -> Vec<Option<Found<X>>>,
    S: Fn(&R, &X) -> Scattered<H, R>,
>(
    max_bounces: nat,
    camera_ray: R,
    probe: P,
    scatter: S,
    end: PathView<H>,
    last: R,
    found: Vec<Option<Found<X>>>,
    k: int,
    hit: Scattered<H, R>,
)
    requires
        0 < max_bounces <= u32::MAX,
        traced(max_bounces, camera_ray, probe, scatter, end, last),
        forall|other: Vec<Option<Found<X>>>| #[trigger]
            call_ensures(probe, (&camera_ray,), other) ==> other == found,
        0 <= k < found@.len(),
        found@[k] is Some,
        forall|j: int| 0 <= j < found@.len() && j != k ==> (#[trigger] found@[j]) is None,
        forall|other: Scattered<H, R>| #[trigger]
            call_ensures(scatter, (&camera_ray, &found@[k]->Some_0.candidate), other) ==> other
                == hit,
        hit.terminal || max_bounces == 1,
    ensures
        end.hits == seq![hit.record],
        last == (if hit.terminal {
            camera_ray
        } else {
            hit.bounced
        }),
{
    let distances = distances_of(found@);
    assert(distances[k] is Some);
    assert forall|j: int| 0 <= j < distances.len() && j != k implies (#[trigger] distances[j]) is None by {
        assert(found@[j] is None);
    }
    crate::nearest::lemma_only_hit_is_nearest(distances, k);
    lemma_nearest_hit_is_recorded(max_bounces, camera_ray, probe, scatter, end, last, found, k, hit);
}

/// `colour` is the colour of one sample: the camera ray is followed to the
/// end of its path, the background is taken where the last ray looks, and
/// the hits of the path are shaded over it, the farthest first and the one
/// nearest to the camera last.
pub open spec fn sampled<
    H,
    R,
    X,
    C,
    P: Fn(&R) -> Vec<Option<Found<X>>>,
    S: Fn(&R, &X) -> Scattered<H, R>,
    B: Fn(&R) -> C,
    Sh: Fn(&H, C) -> C,
>(
    max_bounces: nat,
    camera_ray: R,
    probe: P,
    scatter: S,
    background: B,
    shade: Sh,
    colour: C,
) -> bool {
    exists|end: PathView<H>, last: R, beneath: C|
        #![trigger traced(max_bounces, camera_ray, probe, scatter, end, last), composited(end.hits, shade, beneath, colour)]
        traced(max_bounces, camera_ray, probe, scatter, end, last) && call_ensures(
            background,
            (&last,),
            beneath,
        ) && composited(end.hits, shade, beneath, colour)
}

/// A sample whose camera ray hits no candidate is the background where the
/// camera ray looks: no surface is shaded, whatever the bounce limit.
pub proof fn lemma_missed_sample_is_background<
    H,
    R,
    X,
    C,
    P: Fn(&R) -> Vec<Option<Found<X>>>,
    S: Fn(&R, &X) -> Scattered<H, R>,
    B: Fn(&R) -> C,
    Sh: Fn(&H, C) -> C,
>(max_bounces: nat, camera_ray: R, probe: P, scatter: S, background: B, shade: Sh, colour: C)
    requires
        max_bounces <= u32::MAX,
        sampled::<H, R, X, C, P, S, B, Sh>(
            max_bounces,
            camera_ray,
            probe,
            scatter,
            background,
            shade,
            colour,
        ),
        forall|found: Vec<Option<Found<X>>>| #[trigger]
            call_ensures(probe, (&camera_ray,), found) ==> no_hit(distances_of(found@)),
    ensures
        call_ensures(background, (&camera_ray,), colour),
{
    let (end, last, beneath) = choose|end: PathView<H>, last: R, beneath: C|
        #![trigger traced(max_bounces, camera_ray, probe, scatter, end, last), composited(end.hits, shade, beneath, colour)]
        traced(max_bounces, camera_ray, probe, scatter, end, last) && call_ensures(
            background,
            (&last,),
            beneath,
        ) && composited(end.hits, shade, beneath, colour);
    lemma_missing_every_candidate_records_nothing(
        max_bounces,
        camera_ray,
        probe,
        scatter,
        end,
        last,
    );
    lemma_composite_of_no_hit::<H, C, Sh>(shade, beneath, colour);
}

/// With no bounce allowed, a sample is the background where the camera ray
/// looks, whatever the scene holds.
pub proof fn lemma_sample_without_bounces_is_background<
    H,
    R,
    X,
    C,
    P: Fn(&R) -> Vec<Option<Found<X>>>,
    S: Fn(&R, &X) -> Scattered<H, R>,
    B: Fn(&R) -> C,
    Sh: Fn(&H, C) -> C,
>(camera_ray: R, probe: P, scatter: S, background: B, shade: Sh, colour: C)
    requires
        sampled::<H, R, X, C, P, S, B, Sh>(0, camera_ray, probe, scatter, background, shade, colour),
    ensures
        call_ensures(background, (&camera_ray,), colour),
{
    let (end, last, beneath) = choose|end: PathView<H>, last: R, beneath: C|
        #![trigger traced(0, camera_ray, probe, scatter, end, last), composited(end.hits, shade, beneath, colour)]
        traced(0, camera_ray, probe, scatter, end, last) && call_ensures(
            background,
            (&last,),
            beneath,
        ) && composited(end.hits, shade, beneath, colour);
    let (states, rays) = choose|states: Seq<PathView<H>>, rays: Seq<R>| #[trigger]
        trail(0, camera_ray, probe, scatter, states, rays) && states[states.len() - 1] == end
            && rays[rays.len() - 1] == last;
    if states.len() > 1 {
        assert(states[0].state is Bouncing);
    }
    lemma_composite_of_no_hit::<H, C, Sh>(shade, beneath, colour);
}

/// Where candidate `k` is the nearest hit of the camera ray, and that
/// candidate is terminal or one bounce is all that is allowed, the sample
/// is what shading the hit on candidate `k` makes of the background: the
/// nearest candidate colours the sample, in whatever order the candidates
/// come and however many farther ones are hit.
pub proof fn lemma_nearest_hit_colours_the_sample<
    H,
    R,
    X,
    C,
    P: Fn(&R) -> Vec<Option<Found<X>>>,
    S: Fn(&R, &X) -> Scattered<H, R>,
    B: Fn(&R) -> C,
    Sh: Fn(&H, C) -> C,
>(
    max_bounces: nat,
    camera_ray: R,
    probe: P,
    scatter: S,
    background: B,
    shade: Sh,
    colour: C,
    found: Vec<Option<Found<X>>>,
    k: int,
    hit: Scattered<H, R>,
)
    requires
        0 < max_bounces <= u32::MAX,
        sampled::<H, R, X, C, P, S, B, Sh>(
            max_bounces,
            camera_ray,
            probe,
            scatter,
            background,
            shade,
            colour,
        ),
        forall|other: Vec<Option<Found<X>>>| #[trigger]
            call_ensures(probe, (&camera_ray,), other) ==> other == found,
        is_nearest(distances_of(found@), k),
        forall|other: Scattered<H, R>| #[trigger]
            call_ensures(scatter, (&camera_ray, &found@[k]->Some_0.candidate), other) ==> other
                == hit,
        hit.terminal || max_bounces == 1,
    ensures
        exists|beneath: C|
            call_ensures(
                background,
                (&(if hit.terminal {
                    camera_ray
                } else {
                    hit.bounced
                }),),
                beneath,
            ) && #[trigger] call_ensures(shade, (&hit.record, beneath), colour),
{
    let (end, last, beneath) = choose|end: PathView<H>, last: R, beneath: C|
        #![trigger traced(max_bounces, camera_ray, probe, scatter, end, last), composited(end.hits, shade, beneath, colour)]
        traced(max_bounces, camera_ray, probe, scatter, end, last) && call_ensures(
            background,
            (&last,),
            beneath,
        ) && composited(end.hits, shade, beneath, colour);
    lemma_nearest_hit_is_recorded(max_bounces, camera_ray, probe, scatter, end, last, found, k, hit);
    let layers = choose|layers: Seq<C>| #[trigger]
        layered(end.hits, shade, beneath, layers) && layers[0] == colour;
    assert(end.hits[0] == hit.record);
    assert(call_ensures(shade, (&end.hits[0], layers[1]), layers[0]));
    assert(call_ensures(shade, (&hit.record, beneath), colour));
}

/// The distances of the candidates, in their order.
fn keys_of<X>(found: &Vec<Option<Found<X>>>) -> (keys: Vec<Option<u64>>)
    ensures
        keys@ == distances_of(found@),
{
    let mut keys: Vec<Option<u64>> = Vec::new();
    let mut k: usize = 0;
    while k < found.len()
        invariant
            k <= found@.len(),
            keys@.len() == k,
            forall|j: int| 0 <= j < k ==> #[trigger] keys@[j] == distances_of(found@)[j],
        decreases found@.len() - k,
    {
        let key = match &found[k] {
            Some(hit) => Some(hit.distance),
            None => None,
        };
        keys.push(key);
        k = k + 1;
    }
    assert(keys@ =~= distances_of(found@));
    keys
}

/// Follows one sample's path from the camera ray to its end. Returns the
/// finished path, which is over and has recorded every hit, and the last
/// ray: the ray that escaped, or the one that would have been cast next.
pub fn trace<H, R, X, P: Fn(&R) -> Vec<Option<Found<X>>>, S: Fn(&R, &X) -> Scattered<H, R>>(
    max_bounces: u32,
    camera_ray: R,
    probe: &P,
    scatter: &S,
) -> (done: (Path<H>, R))
    requires
        forall|ray: &R| #[trigger] call_requires(probe, (ray,)),
        forall|ray: &R, candidate: &X| #[trigger] call_requires(scatter, (ray, candidate)),
    ensures
        done.0@.state is Terminal,
        traced(max_bounces as nat, camera_ray, *probe, *scatter, done.0@, done.1),
{
    let mut path: Path<H> = Path::new(max_bounces);
    path.launch();
    let mut ray = camera_ray;
    let ghost mut states: Seq<PathView<H>> = seq![path@];
    let ghost mut rays: Seq<R> = seq![ray];
    while path.is_bouncing()
        invariant
            forall|ray: &R| #[trigger] call_requires(probe, (ray,)),
            forall|ray: &R, candidate: &X| #[trigger] call_requires(scatter, (ray, candidate)),
            states.len() > 0,
            rays.len() == states.len(),
            states[0] == launched(fresh::<H>(max_bounces as nat)),
            rays[0] == camera_ray,
            forall|k: int|
                0 <= k < states.len() - 1 ==> (#[trigger] states[k]).state is Bouncing && stepped(
                    states[k],
                    rays[k],
                    *probe,
                    *scatter,
                    states[k + 1],
                    rays[k + 1],
                ),
            states[states.len() - 1] == path@,
            rays[rays.len() - 1] == ray,
            !(path@.state is InitialRay),
        decreases casts_left(path@),
    {
        let ghost before = path@;
        let ghost incoming = ray;
        proof {
            use_type_invariant(&path);
        }
        let found = probe(&ray);
        let keys = keys_of(&found);
        match path.resolve(&keys) {
            None => {
                proof {
                    lemma_casts_run_out(before, Outcome::Escaped);
                    assert(stepped(before, incoming, *probe, *scatter, path@, ray));
                }
            },
            Some(i) => {
                assert(distances_of(found@)[i as int] is Some);
                match &found[i] {
                    None => {
                        assert(false);
                    },
                    Some(nearest) => {
                        let hit = scatter(&ray, &nearest.candidate);
                        let ghost scattered = hit;
                        let terminal = hit.terminal;
                        path.advance(Outcome::Hit { record: hit.record, terminal });
                        if !terminal {
                            ray = hit.bounced;
                        }
                        proof {
                            lemma_casts_run_out(
                                before,
                                Outcome::Hit {
                                    record: scattered.record,
                                    terminal: scattered.terminal,
                                },
                            );
                            assert(is_nearest(distances_of(found@), i as int));
                            assert(call_ensures(
                                *scatter,
                                (&incoming, &found@[i as int]->Some_0.candidate),
                                scattered,
                            ));
                            assert(stepped(before, incoming, *probe, *scatter, path@, ray));
                        }
                    },
                }
            },
        }
        proof {
            let ghost old_states = states;
            let ghost old_rays = rays;
            states = states.push(path@);
            rays = rays.push(ray);
            assert forall|k: int| 0 <= k < states.len() - 1 implies (#[trigger] states[k]).state is Bouncing
                && stepped(states[k], rays[k], *probe, *scatter, states[k + 1], rays[k + 1]) by {
                if k < old_states.len() - 1 {
                    assert(states[k] == old_states[k]);
                    assert(states[k + 1] == old_states[k + 1]);
                    assert(rays[k] == old_rays[k]);
                    assert(rays[k + 1] == old_rays[k + 1]);
                } else {
                    assert(states[k] == before);
                    assert(rays[k] == incoming);
                }
            }
        }
    }
    proof {
        assert(trail(max_bounces as nat, camera_ray, *probe, *scatter, states, rays));
    }
    (path, ray)
}

/// The colour of one sample: follows the camera ray to the end of its path,
/// takes the background where the last ray looks, and shades the recorded
/// hits over it, the farthest first and the one nearest to the camera last.
pub fn render_sample<
    H,
    R,
    X,
    C,
    P: Fn(&R) -> Vec<Option<Found<X>>>,
    S: Fn(&R, &X) -> Scattered<H, R>,
    B: Fn(&R) -> C,
    Sh: Fn(&H, C) -> C,
>(
    max_bounces: u32,
    camera_ray: R,
    probe: &P,
    scatter: &S,
    background: &B,
    shade: &Sh,
) -> (colour: C)
    requires
        forall|ray: &R| #[trigger] call_requires(probe, (ray,)),
        forall|ray: &R, candidate: &X| #[trigger] call_requires(scatter, (ray, candidate)),
        forall|ray: &R| #[trigger] call_requires(background, (ray,)),
        forall|hit: &H, beneath: C| #[trigger] call_requires(shade, (hit, beneath)),
    ensures
        sampled::<H, R, X, C, P, S, B, Sh>(
            max_bounces as nat,
            camera_ray,
            *probe,
            *scatter,
            *background,
            *shade,
            colour,
        ),
{
    let (path, last) = trace(max_bounces, camera_ray, probe, scatter);
    let beneath = background(&last);
    path.composite(beneath, shade)
}

} // verus!
