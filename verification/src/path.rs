//! One sample's light path: the bounce state machine, the hits it records,
//! and the order in which they are shaded.
//!
//! The caller casts rays and evaluates surfaces; the path decides, from each
//! outcome, whether another ray is cast. A path starts at the camera ray,
//! bounces while the ray keeps striking surfaces, and ends when the ray
//! escapes, when a surface does not bounce, or when the bounce limit is
//! reached.

use vstd::prelude::*;
use crate::materials::Material;
use crate::nearest::is_nearest;
use crate::nearest::nearest_hit;
use crate::nearest::no_hit;

verus! {

/// Where a path stands.
#[derive(Clone, Copy, Debug, PartialEq, Eq, Structural)]
pub enum PathState {
    /// The camera ray exists and has not been cast.
    InitialRay,
    /// `bounce` hits are recorded and the next ray is to be cast.
    Bouncing { bounce: u32 },
    /// No more rays are cast; the recorded hits are ready to be shaded.
    Terminal,
}

/// What casting a ray into the scene came to.
pub enum Outcome<H> {
    /// No candidate was hit: the ray left the scene.
    Escaped,
    /// The nearest surface was struck. `record` describes the hit;
    /// `terminal` says that the surface does not bounce the ray on.
    Hit { record: H, terminal: bool },
}

/// What a `Path` stands for.
pub struct PathView<H> {
    pub state: PathState,
    pub max_bounces: nat,
    pub hits: Seq<H>,
}

/// The state of a valid path agrees with the hits it has recorded.
pub open spec fn path_wf<H>(v: PathView<H>) -> bool {
    &&& v.max_bounces <= u32::MAX
    &&& v.hits.len() <= v.max_bounces
    &&& v.state is InitialRay ==> v.hits.len() == 0
    &&& v.state matches PathState::Bouncing { bounce } ==> bounce == v.hits.len() && bounce
        < v.max_bounces
}

/// The path after its camera ray is released: ready to cast, or already over
/// where no bounce is allowed. Any other path is unchanged.
pub open spec fn launched<H>(v: PathView<H>) -> PathView<H> {
    if v.state is InitialRay {
        PathView {
            state: if v.max_bounces == 0 {
                PathState::Terminal
            } else {
                PathState::Bouncing { bounce: 0 }
            },
            ..v
        }
    } else {
        v
    }
}

/// The path after one cast. Only a bouncing path reacts: an escaped ray ends
/// it; a hit is recorded and ends it where the surface is terminal or the
/// bounce limit is reached. Any other path is unchanged and records nothing.
pub open spec fn advanced<H>(v: PathView<H>, outcome: Outcome<H>) -> PathView<H> {
    match v.state {
        PathState::Bouncing { bounce } => match outcome {
            Outcome::Escaped => PathView { state: PathState::Terminal, ..v },
            Outcome::Hit { record, terminal } => PathView {
                state: if terminal || bounce + 1 >= v.max_bounces {
                    PathState::Terminal
                } else {
                    PathState::Bouncing { bounce: (bounce + 1) as u32 }
                },
                hits: v.hits.push(record),
                ..v
            },
        },
        _ => v,
    }
}

/// The number of casts that a path may still make.
pub open spec fn casts_left<H>(v: PathView<H>) -> nat {
    match v.state {
        PathState::InitialRay => v.max_bounces,
        PathState::Bouncing { bounce } => (v.max_bounces - bounce) as nat,
        PathState::Terminal => 0,
    }
}

/// `layers` holds what shading comes to, hit by hit: its last entry is the
/// background, and the entry at every hit is what `shade` makes of that hit
/// over the entry after it. The hit farthest along the path is so shaded
/// first, over the background, and the hit nearest to the camera last.
pub open spec fn layered<H, C, S: Fn(&H, C) -> C>(
    hits: Seq<H>,
    shade: S,
    background: C,
    layers: Seq<C>,
) -> bool {
    &&& layers.len() == hits.len() + 1
    &&& layers[hits.len() as int] == background
    &&& forall|i: int|
        0 <= i < hits.len() ==> call_ensures(shade, (&hits[i], layers[i + 1]), #[trigger] layers[i])
}

/// `result` is what comes of shading the hits over the background, the
/// farthest hit first and the one nearest to the camera last.
pub open spec fn composited<H, C, S: Fn(&H, C) -> C>(
    hits: Seq<H>,
    shade: S,
    background: C,
    result: C,
) -> bool {
    exists|layers: Seq<C>| #[trigger] layered(hits, shade, background, layers) && layers[0] == result
}

/// Shading no hit gives the background back, and nothing else.
pub proof fn lemma_composite_of_no_hit<H, C, S: Fn(&H, C) -> C>(
    shade: S,
    background: C,
    result: C,
)
    ensures
        composited(Seq::<H>::empty(), shade, background, result) <==> result == background,
{
    if result == background {
        assert(layered(Seq::<H>::empty(), shade, background, seq![background]));
    }
}

/// A path at its camera ray, with nothing recorded.
pub open spec fn fresh<H>(max_bounces: nat) -> PathView<H> {
    PathView { state: PathState::InitialRay, max_bounces, hits: Seq::empty() }
}

/// The path after a series of casts, taken in order.
pub open spec fn run<H>(v: PathView<H>, outcomes: Seq<Outcome<H>>) -> PathView<H>
    decreases outcomes.len(),
{
    if outcomes.len() == 0 {
        v
    } else {
        advanced(run(v, outcomes.drop_last()), outcomes.last())
    }
}

/// Releasing the camera ray keeps a path valid and records nothing. With a
/// bounce limit of zero the path is over at once.
pub proof fn lemma_launch_keeps_valid<H>(v: PathView<H>)
    requires
        path_wf(v),
    ensures
        path_wf(launched(v)),
        launched(v).hits == v.hits,
        launched(v).max_bounces == v.max_bounces,
        !(launched(v).state is InitialRay),
        v.state is InitialRay && v.max_bounces == 0 ==> launched(v).state is Terminal,
{
}

/// A cast keeps a path valid, so the number of recorded hits never exceeds
/// the bounce limit. It records at most one hit, after those already
/// recorded.
pub proof fn lemma_advance_keeps_valid<H>(v: PathView<H>, outcome: Outcome<H>)
    requires
        path_wf(v),
    ensures
        path_wf(advanced(v, outcome)),
        advanced(v, outcome).max_bounces == v.max_bounces,
        advanced(v, outcome).hits == v.hits || (outcome is Hit && advanced(v, outcome).hits
            == v.hits.push(outcome->record)),
        advanced(v, outcome).hits.len() <= v.max_bounces,
{
}

/// A path that is over stays as it is, whatever comes.
pub proof fn lemma_terminal_is_final<H>(v: PathView<H>, outcome: Outcome<H>)
    requires
        v.state is Terminal,
    ensures
        advanced(v, outcome) == v,
        launched(v) == v,
{
}

/// Every cast of a bouncing path uses up one of the casts it has left.
pub proof fn lemma_casts_run_out<H>(v: PathView<H>, outcome: Outcome<H>)
    requires
        path_wf(v),
        v.state is Bouncing,
    ensures
        casts_left(advanced(v, outcome)) < casts_left(v),
{
}

/// A series of casts keeps a launched path valid and never adds to the casts it has left.
pub proof fn lemma_run_keeps_valid<H>(v: PathView<H>, outcomes: Seq<Outcome<H>>)
    requires
        path_wf(v),
        !(v.state is InitialRay),
    ensures
        path_wf(run(v, outcomes)),
        !(run(v, outcomes).state is InitialRay),
        run(v, outcomes).max_bounces == v.max_bounces,
        run(v, outcomes).hits.len() <= v.max_bounces,
        casts_left(run(v, outcomes)) <= casts_left(v),
        casts_left(run(v, outcomes)) == 0 || casts_left(run(v, outcomes)) + outcomes.len()
            <= casts_left(v),
    decreases outcomes.len(),
{
    if outcomes.len() > 0 {
        lemma_run_keeps_valid(v, outcomes.drop_last());
    }
}

/// A launched path is over after as many casts as it had left: no path
/// casts more rays than its bounce limit.
pub proof fn lemma_run_ends<H>(v: PathView<H>, outcomes: Seq<Outcome<H>>)
    requires
        path_wf(v),
        !(v.state is InitialRay),
        outcomes.len() >= casts_left(v),
    ensures
        run(v, outcomes).state is Terminal,
{
    lemma_run_keeps_valid(v, outcomes);
}

/// A path whose first ray escapes records no hit, however many casts are
/// reported after it: nothing is left to shade but the background.
pub proof fn lemma_escape_records_nothing<H>(max_bounces: nat, outcomes: Seq<Outcome<H>>)
    requires
        max_bounces <= u32::MAX,
        outcomes.len() > 0,
        outcomes[0] is Escaped,
    ensures
        run(launched(fresh::<H>(max_bounces)), outcomes).state is Terminal,
        run(launched(fresh::<H>(max_bounces)), outcomes).hits == Seq::<H>::empty(),
    decreases outcomes.len(),
{
    let start = launched(fresh::<H>(max_bounces));
    if outcomes.len() == 1 {
        assert(outcomes.drop_last().len() == 0);
        assert(run(start, outcomes.drop_last()) == start);
        assert(outcomes.last() == outcomes[0]);
    } else {
        assert(outcomes.drop_last()[0] == outcomes[0]);
        lemma_escape_records_nothing::<H>(max_bounces, outcomes.drop_last());
    }
}

/// Where every surface that is struck is terminal, a path records at most one hit.
pub proof fn lemma_terminal_surfaces_record_one_hit<H>(
    max_bounces: nat,
    outcomes: Seq<Outcome<H>>,
)
    requires
        max_bounces <= u32::MAX,
        forall|i: int|
            0 <= i < outcomes.len() ==> ((#[trigger] outcomes[i]) is Hit ==> outcomes[i]->terminal),
    ensures
        run(launched(fresh::<H>(max_bounces)), outcomes).hits.len() <= 1,
        run(launched(fresh::<H>(max_bounces)), outcomes).hits.len() == 1 ==> run(
            launched(fresh::<H>(max_bounces)),
            outcomes,
        ).state is Terminal,
    decreases outcomes.len(),
{
    if outcomes.len() > 0 {
        lemma_terminal_surfaces_record_one_hit::<H>(max_bounces, outcomes.drop_last());
        lemma_run_keeps_valid(launched(fresh::<H>(max_bounces)), outcomes.drop_last());
        assert(outcomes.last() == outcomes[outcomes.len() - 1]);
    }
}

/// One sample's path through the scene.
pub struct Path<H> {
    state: PathState,
    max_bounces: u32,
    hits: Vec<H>,
}

impl<H> View for Path<H> {
    type V = PathView<H>;

    closed spec fn view(&self) -> PathView<H> {
        PathView { state: self.state, max_bounces: self.max_bounces as nat, hits: self.hits@ }
    }
}

impl<H> Path<H> {
    #[verifier::type_invariant]
    pub open spec fn wf(self) -> bool {
        path_wf(self@)
    }

    /// A path at its camera ray, with nothing recorded.
    pub fn new(max_bounces: u32) -> (p: Path<H>)
        ensures
            p@.state == PathState::InitialRay,
            p@.max_bounces == max_bounces,
            p@.hits == Seq::<H>::empty(),
    {
        Path { state: PathState::InitialRay, max_bounces, hits: Vec::new() }
    }

    /// Releases the camera ray.
    pub fn launch(&mut self)
        ensures
            final(self)@ == launched(old(self)@),
    {
        proof {
            use_type_invariant(&*self);
        }
        match self.state {
            PathState::InitialRay => {
                if self.max_bounces == 0 {
                    self.state = PathState::Terminal;
                } else {
                    self.state = PathState::Bouncing { bounce: 0 };
                }
            },
            _ => {},
        }
    }

    /// Takes the outcome of one cast.
    pub fn advance(&mut self, outcome: Outcome<H>)
        ensures
            final(self)@ == advanced(old(self)@, outcome),
    {
        proof {
            use_type_invariant(&*self);
        }
        match self.state {
            PathState::Bouncing { bounce } => {
                self.state = PathState::Terminal;
                match outcome {
                    Outcome::Escaped => {},
                    Outcome::Hit { record, terminal } => {
                        let mut hits: Vec<H> = Vec::new();
                        core::mem::swap(&mut self.hits, &mut hits);
                        hits.push(record);
                        core::mem::swap(&mut self.hits, &mut hits);
                        if !terminal && bounce + 1 < self.max_bounces {
                            self.state = PathState::Bouncing { bounce: bounce + 1 };
                        }
                    },
                }
            },
            _ => {},
        }
    }

    /// Settles one cast from the distances of its candidates. Where no
    /// candidate is hit the ray has escaped and the path ends. Otherwise the
    /// path is left as it is and the nearest candidate is returned: the hit
    /// that the caller is to record.
    pub fn resolve(&mut self, distances: &Vec<Option<u64>>) -> (nearest: Option<usize>)
        ensures
            nearest is None ==> no_hit(distances@) && final(self)@ == advanced(
                old(self)@,
                Outcome::Escaped,
            ),
            nearest is Some ==> is_nearest(distances@, nearest->Some_0 as int) && final(self)@
                == old(self)@,
    {
        let nearest = nearest_hit(distances);
        if nearest.is_none() {
            self.advance(Outcome::Escaped);
        }
        nearest
    }

    /// Takes a hit on a surface of the given material. The material is asked
    /// whether it is terminal, and the hit is taken as it answers. Returns
    /// the answer.
    pub fn strike<M: Material>(&mut self, record: H, material: &M) -> (terminal: bool)
        ensures
            call_ensures(M::is_terminal, (material,), terminal),
            final(self)@ == advanced(old(self)@, (Outcome::Hit { record, terminal })),
    {
        let terminal = material.is_terminal();
        self.advance(Outcome::Hit { record, terminal });
        terminal
    }

    /// Where the path stands.
    pub fn state(&self) -> (s: PathState)
        ensures
            s == self@.state,
    {
        self.state
    }

    /// Whether the caller is to cast another ray.
    pub fn is_bouncing(&self) -> (b: bool)
        ensures
            b == (self@.state is Bouncing),
    {
        match self.state {
            PathState::Bouncing { .. } => true,
            _ => false,
        }
    }

    /// Whether the path is over.
    pub fn is_terminal(&self) -> (b: bool)
        ensures
            b == (self@.state is Terminal),
    {
        match self.state {
            PathState::Terminal => true,
            _ => false,
        }
    }

    /// The bounce limit the path was made with.
    pub fn max_bounces(&self) -> (n: u32)
        ensures
            n == self@.max_bounces,
    {
        self.max_bounces
    }

    /// The number of hits recorded so far. It never exceeds the bounce limit.
    pub fn hit_count(&self) -> (n: usize)
        ensures
            n == self@.hits.len(),
            n <= self@.max_bounces,
    {
        proof {
            use_type_invariant(self);
        }
        self.hits.len()
    }

    /// The recorded hits, the one nearest to the camera first.
    pub fn hits(&self) -> (h: &Vec<H>)
        ensures
            h@ == self@.hits,
    {
        &self.hits
    }

    /// Shades the recorded hits over the background, the farthest first and
    /// the one nearest to the camera last. A path without hits gives the
    /// background back.
    pub fn composite<C, S: Fn(&H, C) -> C>(&self, background: C, shade: &S) -> (colour: C)
        requires
            forall|i: int, beneath: C|
                0 <= i < self@.hits.len() ==> #[trigger] call_requires(
                    shade,
                    (&self@.hits[i], beneath),
                ),
        ensures
            composited(self@.hits, *shade, background, colour),
    {
        let ghost hits = self.hits@;
        let ghost mut layers: Seq<C> = seq![background];
        let mut colour = background;
        let mut i: usize = self.hits.len();
        proof {
            assert(hits == self@.hits);
            assert forall|k: int, beneath: C| 0 <= k < hits.len() implies #[trigger] call_requires(
                shade,
                (&hits[k], beneath),
            ) by {
                assert(call_requires(shade, (&self@.hits[k], beneath)));
            }
        }
        while i > 0
            invariant
                i <= hits.len(),
                hits == self.hits@,
                hits == self@.hits,
                forall|k: int, beneath: C|
                    0 <= k < hits.len() ==> #[trigger] call_requires(shade, (&hits[k], beneath)),
                layers.len() == hits.len() - i + 1,
                layers[hits.len() - i] == background,
                layers[0] == colour,
                forall|j: int|
                    0 <= j < hits.len() - i ==> call_ensures(
                        shade,
                        (&hits[i + j], layers[j + 1]),
                        #[trigger] layers[j],
                    ),
            decreases i,
        {
            let ghost beneath = layers;
            i = i - 1;
            colour = shade(&self.hits[i], colour);
            proof {
                layers = seq![colour] + beneath;
                assert forall|j: int| 0 <= j < hits.len() - i implies call_ensures(
                    shade,
                    (&hits[i + j], layers[j + 1]),
                    #[trigger] layers[j],
                ) by {
                    if j > 0 {
                        assert(layers[j] == beneath[j - 1]);
                        assert(layers[j + 1] == beneath[j]);
                        assert(hits[i + j] == hits[(i + 1) + (j - 1)]);
                    }
                }
            }
        }
        proof {
            assert forall|k: int| 0 <= k < hits.len() implies call_ensures(
                *shade,
                (&hits[k], layers[k + 1]),
                #[trigger] layers[k],
            ) by {
                assert(hits[k] == hits[0 + k]);
            }
            assert(layered(hits, *shade, background, layers));
        }
        colour
    }

    /// The recorded hits in the order in which they are shaded: the hit
    /// farthest along the path first, the one nearest to the camera last.
    pub fn into_shading_order(self) -> (order: Vec<H>)
        ensures
            order@ == self@.hits.reverse(),
    {
        let ghost recorded = self.hits@;
        let mut rest = self.hits;
        let mut order: Vec<H> = Vec::new();
        while rest.len() > 0
            invariant
                rest@.len() <= recorded.len(),
                rest@ == recorded.take(rest@.len() as int),
                order@.len() + rest@.len() == recorded.len(),
                forall|i: int|
                    0 <= i < order@.len() ==> #[trigger] order@[i] == recorded[recorded.len() - 1 - i],
            decreases rest@.len(),
        {
            let hit = rest.pop().unwrap();
            order.push(hit);
        }
        assert(order@ =~= recorded.reverse());
        order
    }
}

} // verus!
