//! The path-tracing integrator and the schedule of rows.
use crate::film::Film;
use crate::intersection::Intersection;
use crate::material::Material;
use crate::math::Vec3;
use crate::raster::{blank, dense, extent, fits, lemma_painted, overlaid, paint, pixel, Raster};
use crate::ray::Ray;
use crate::scalar::{channel, is_positive, lemma_less_strict, less, less_than, to_channel, ZERO};
use crate::shape::{Scene, Shape};
use std::sync::Arc;
use vstd::prelude::*;
use vstd::set_lib::{lemma_int_range, lemma_len_subset, set_int_range};

verus! {

/// How deep a path is followed when nothing else is said.
pub const MAX_DEPTH: i32 = 50;

/// Whether `hits[i]` is the meeting to shade: it lies ahead, none that lies
/// ahead is nearer, and every earlier one that lies ahead is farther.
pub open spec fn is_nearest(hits: Seq<Option<Intersection>>, i: int) -> bool {
    &&& 0 <= i < hits.len()
    &&& hits[i] is Some
    &&& hits[i].unwrap().ahead()
    &&& forall|j: int|
        0 <= j < hits.len() && hits[j] is Some && (#[trigger] hits[j]).unwrap().ahead() ==> !less(
            hits[j].unwrap().t,
            hits[i].unwrap().t,
        ) && (j < i ==> less(hits[i].unwrap().t, hits[j].unwrap().t))
}

/// Whether no meeting lies ahead.
pub open spec fn none_ahead(hits: Seq<Option<Intersection>>) -> bool {
    forall|j: int| 0 <= j < hits.len() && (#[trigger] hits[j]) is Some ==> !hits[j].unwrap().ahead()
}

/// At most one meeting is the one to shade.
pub proof fn lemma_nearest_unique(hits: Seq<Option<Intersection>>, i: int, j: int)
    requires
        is_nearest(hits, i),
        is_nearest(hits, j),
    ensures
        i == j,
{
    lemma_less_strict(hits[i].unwrap().t, hits[j].unwrap().t);
    if i < j {
        assert(hits[i].unwrap().ahead());
    } else if j < i {
        assert(hits[j].unwrap().ahead());
    }
}

/// Where some meeting lies ahead, none is not the answer.
pub proof fn lemma_nearest_excludes_none(hits: Seq<Option<Intersection>>, i: int)
    requires
        is_nearest(hits, i),
    ensures
        !none_ahead(hits),
{
    assert(hits[i].unwrap().ahead());
}

/// Whether a new meeting at distance `candidate` replaces the best so far: it
/// must lie ahead, and be nearer than the best if there is one.
pub fn closer(best: Option<u32>, candidate: u32) -> (r: bool)
    ensures
        r == (less(ZERO, candidate) && (best is None || less(candidate, best.unwrap()))),
{
    if !is_positive(candidate) {
        return false;
    }
    match best {
        None => true,
        Some(b) => less_than(candidate, b),
    }
}

/// Asks every shape of the scene, in order, where the ray meets it, and keeps
/// the nearest meeting that lies ahead, the first of them where several are
/// equally near.
pub fn closest<S: Shape>(ray: &Ray, scene: &Scene<S>) -> (r: Option<(usize, Intersection)>)
    ensures
        match r {
            Some((i, h)) => is_nearest(scene.answers(*ray), i as int) && scene.answers(*ray)[i as int]
                == Some(h),
            None => none_ahead(scene.answers(*ray)),
        },
{
    let ghost hits = scene.answers(*ray);
    let mut best: Option<(usize, Intersection)> = None;
    let n = scene.shapes.len();
    let mut k: usize = 0;
    while k < n
        invariant
            n == scene.shapes@.len(),
            hits == scene.answers(*ray),
            k <= n,
            match best {
                Some((i, h)) => is_nearest(hits.take(k as int), i as int) && hits[i as int] == Some(h),
                None => none_ahead(hits.take(k as int)),
            },
        decreases n - k,
    {
        let answer = scene.shapes[k].hit(ray);
        assert(hits.take(k + 1) == hits.take(k as int).push(answer));
        if let Some(h) = answer {
            let limit = match best {
                Some((_, b)) => Some(b.t),
                None => None,
            };
            if closer(limit, h.t) {
                best = Some((k, h));
            }
        }
        k += 1;
    }
    assert(hits.take(n as int) == hits);
    best
}

/// How a light path ends.
#[derive(Clone, Copy, Debug, PartialEq, Eq, Structural)]
pub enum Outcome {
    /// It carries no light: a surface absorbed it, or it was followed to the depth allowed.
    Absorbed,
    /// It left the scene and sees the sky.
    Escaped,
}

/// One meeting on a path: the ray that came in, which shape it met and where.
pub ghost struct Step {
    pub ray: Ray,
    pub shape: int,
    pub hit: Intersection,
}

/// The ray that leaves meeting `k`: the one that comes into the next
/// meeting, or the last ray of the path after the last meeting.
pub open spec fn leaving(steps: Seq<Step>, last: Ray, k: int) -> Ray {
    if k + 1 < steps.len() {
        steps[k + 1].ray
    } else {
        last
    }
}

/// Whether a ray followed through the scene for at most `depth + 1`
/// meetings can take this path.
///
/// Below depth zero nothing is met and no light comes back. The first
/// meeting is that of the ray itself. At every meeting the shape met is the
/// nearest ahead of the ray that came in, its color is the albedo recorded,
/// and the ray that leaves is one that its surface may scatter. The path
/// escapes only on a ray with nothing ahead. It is absorbed only where the
/// surface of the nearest shape ahead may absorb the ray, or when it has
/// been followed as far as allowed.
pub open spec fn walks<S: Shape>(
    scene: &Scene<S>,
    ray: Ray,
    depth: int,
    albedos: Seq<Vec3>,
    steps: Seq<Step>,
    end: Outcome,
    last: Ray,
) -> bool {
    &&& steps.len() == albedos.len()
    &&& depth < 0 ==> steps.len() == 0 && end is Absorbed
    &&& depth >= 0 ==> steps.len() <= depth + 1
    &&& steps.len() == 0 ==> last == ray
    &&& steps.len() > 0 ==> steps[0].ray == ray
    &&& forall|k: int|
        0 <= k < steps.len() ==> {
            &&& is_nearest(scene.answers((#[trigger] steps[k]).ray), steps[k].shape)
            &&& scene.answers(steps[k].ray)[steps[k].shape] == Some(steps[k].hit)
            &&& scene.shapes@[steps[k].shape].surface(steps[k].hit).albedo() == albedos[k]
            &&& scene.shapes@[steps[k].shape].surface(steps[k].hit).scatters(
                steps[k].ray,
                steps[k].hit,
                Some(leaving(steps, last, k)),
            )
        }
    &&& end is Escaped ==> steps.len() <= depth && none_ahead(scene.answers(last))
    &&& end is Absorbed && steps.len() < depth + 1 ==> exists|i: int, h: Intersection|
        {
            &&& is_nearest(scene.answers(last), i)
            &&& scene.answers(last)[i] == Some(h)
            &&& (#[trigger] scene.shapes@[i].surface(h)).scatters(last, h, None)
        }
}

/// One path of light, from the eye outwards.
pub struct LightPath {
    /// The colors of the surfaces that scattered the path, the first met first.
    pub albedos: Vec<Vec3>,
    /// How the path ends.
    pub end: Outcome,
    /// The last ray of the path: the one that was absorbed or that escaped.
    pub last: Ray,
    /// The meetings at which the path was scattered, one for each albedo.
    pub steps: Ghost<Seq<Step>>,
}

impl LightPath {
    /// Whether the path is one that `ray` can take through the scene when
    /// followed for at most `depth + 1` meetings.
    pub open spec fn follows<S: Shape>(&self, scene: &Scene<S>, ray: Ray, depth: int) -> bool {
        walks(scene, ray, depth, self.albedos@, self.steps@, self.end, self.last)
    }
}

/// A ray with nothing ahead escapes at once, untinted.
pub proof fn lemma_walk_escapes<S: Shape>(
    scene: &Scene<S>,
    ray: Ray,
    depth: int,
    albedos: Seq<Vec3>,
    steps: Seq<Step>,
    end: Outcome,
    last: Ray,
)
    requires
        walks(scene, ray, depth, albedos, steps, end, last),
        depth >= 0,
        none_ahead(scene.answers(ray)),
    ensures
        albedos.len() == 0,
        end is Escaped,
        last == ray,
{
    if steps.len() > 0 {
        lemma_nearest_excludes_none(scene.answers(steps[0].ray), steps[0].shape);
    } else if end is Absorbed {
        let (i, h) = choose|i: int, h: Intersection|
            {
                &&& is_nearest(scene.answers(last), i)
                &&& scene.answers(last)[i] == Some(h)
                &&& (#[trigger] scene.shapes@[i].surface(h)).scatters(last, h, None)
            };
        lemma_nearest_excludes_none(scene.answers(last), i);
    }
}

/// What a path is made of, one meeting at a time. Let the nearest shape
/// ahead of the ray be shape `i`, met at `h`. Then either the path has no
/// meeting and no light, and the surface may absorb the ray; or its first
/// meeting is this one, its first albedo is the color of that surface, the
/// surface may scatter the ray into the one that leaves, and the rest is a
/// path of that ray, followed one meeting less.
pub proof fn lemma_walk_step<S: Shape>(
    scene: &Scene<S>,
    ray: Ray,
    depth: int,
    albedos: Seq<Vec3>,
    steps: Seq<Step>,
    end: Outcome,
    last: Ray,
    i: int,
    h: Intersection,
)
    requires
        walks(scene, ray, depth, albedos, steps, end, last),
        depth >= 0,
        is_nearest(scene.answers(ray), i),
        scene.answers(ray)[i] == Some(h),
    ensures
        steps.len() == 0 ==> end is Absorbed && last == ray && scene.shapes@[i].surface(h).scatters(
            ray,
            h,
            None,
        ),
        steps.len() > 0 ==> {
            &&& steps[0] == Step { ray, shape: i, hit: h }
            &&& albedos[0] == scene.shapes@[i].surface(h).albedo()
            &&& scene.shapes@[i].surface(h).scatters(ray, h, Some(leaving(steps, last, 0)))
            &&& walks(
                scene,
                leaving(steps, last, 0),
                depth - 1,
                albedos.drop_first(),
                steps.drop_first(),
                end,
                last,
            )
        },
{
    if steps.len() == 0 {
        lemma_nearest_excludes_none(scene.answers(ray), i);
        let (j, g) = choose|j: int, g: Intersection|
            {
                &&& is_nearest(scene.answers(last), j)
                &&& scene.answers(last)[j] == Some(g)
                &&& (#[trigger] scene.shapes@[j].surface(g)).scatters(last, g, None)
            };
        lemma_nearest_unique(scene.answers(ray), i, j);
    } else {
        let first = steps[0];
        lemma_nearest_unique(scene.answers(ray), i, first.shape);
        let rest = steps.drop_first();
        assert forall|k: int| 0 <= k < rest.len() implies {
            &&& is_nearest(scene.answers((#[trigger] rest[k]).ray), rest[k].shape)
            &&& scene.answers(rest[k].ray)[rest[k].shape] == Some(rest[k].hit)
            &&& scene.shapes@[rest[k].shape].surface(rest[k].hit).albedo() == albedos.drop_first()[k]
            &&& scene.shapes@[rest[k].shape].surface(rest[k].hit).scatters(
                rest[k].ray,
                rest[k].hit,
                Some(leaving(rest, last, k)),
            )
        } by {
            assert(rest[k] == steps[k + 1]);
            assert(leaving(rest, last, k) == leaving(steps, last, k + 1));
        }
    }
}

/// In an empty scene every path escapes at once.
pub proof fn lemma_empty_scene<S: Shape>(path: LightPath, scene: &Scene<S>, ray: Ray, depth: int)
    requires
        path.follows(scene, ray, depth),
        scene.shapes@.len() == 0,
        depth >= 0,
    ensures
        path.albedos@.len() == 0,
        path.end is Escaped,
        path.last == ray,
{
    lemma_walk_escapes(scene, ray, depth, path.albedos@, path.steps@, path.end, path.last);
}

/// However the surfaces scatter, a path has at most `depth + 1` meetings,
/// and one that escapes has at most `depth`.
pub proof fn lemma_depth_bounds<S: Shape>(path: LightPath, scene: &Scene<S>, ray: Ray, depth: int)
    requires
        path.follows(scene, ray, depth),
    ensures
        depth >= 0 ==> path.albedos@.len() <= depth + 1,
        depth < 0 ==> path.albedos@.len() == 0,
        path.end is Escaped ==> path.albedos@.len() <= depth,
{
}

/// In a scene that leaves no way out, where every ray has something ahead,
/// no path escapes: each ends without light after at most `depth + 1` meetings.
pub proof fn lemma_closed_scene<S: Shape>(path: LightPath, scene: &Scene<S>, ray: Ray, depth: int)
    requires
        path.follows(scene, ray, depth),
        forall|r: Ray| !none_ahead(#[trigger] scene.answers(r)),
    ensures
        path.end is Absorbed,
        depth >= 0 ==> path.albedos@.len() <= depth + 1,
{
    assert(!none_ahead(scene.answers(path.last)));
}

/// Between surfaces that never absorb, in a scene that leaves no way out,
/// every path runs to the depth allowed: it has exactly `depth + 1`
/// meetings and then ends without light.
pub proof fn lemma_runs_to_depth<S: Shape>(path: LightPath, scene: &Scene<S>, ray: Ray, depth: int)
    requires
        path.follows(scene, ray, depth),
        depth >= 0,
        forall|r: Ray| !none_ahead(#[trigger] scene.answers(r)),
        forall|k: int, r: Ray, h: Intersection|
            0 <= k < scene.shapes@.len() ==> !(#[trigger] scene.shapes@[k].surface(h).scatters(
                r,
                h,
                None,
            )),
    ensures
        path.albedos@.len() == depth + 1,
        path.end is Absorbed,
{
    assert(!none_ahead(scene.answers(path.last)));
    if path.steps@.len() < depth + 1 {
        let (i, h) = choose|i: int, h: Intersection|
            {
                &&& is_nearest(scene.answers(path.last), i)
                &&& scene.answers(path.last)[i] == Some(h)
                &&& (#[trigger] scene.shapes@[i].surface(h)).scatters(path.last, h, None)
            };
        assert(!scene.shapes@[i].surface(h).scatters(path.last, h, None));
    }
}

/// Where the surface of the nearest shape ahead scatters the ray nowhere,
/// the path ends at that first meeting, without light.
pub proof fn lemma_absorbed_at_once<S: Shape>(
    path: LightPath,
    scene: &Scene<S>,
    ray: Ray,
    depth: int,
    i: int,
    h: Intersection,
)
    requires
        path.follows(scene, ray, depth),
        depth >= 0,
        is_nearest(scene.answers(ray), i),
        scene.answers(ray)[i] == Some(h),
        forall|next: Ray| !scene.shapes@[i].surface(h).scatters(ray, h, Some(next)),
    ensures
        path.albedos@.len() == 0,
        path.end is Absorbed,
        path.last == ray,
{
    lemma_walk_step(scene, ray, depth, path.albedos@, path.steps@, path.end, path.last, i, h);
}

/// Where no surface of the scene has a color with a channel below zero, no
/// tint on a path through it has one.
pub proof fn lemma_tints_not_negative<S: Shape>(
    path: LightPath,
    scene: &Scene<S>,
    ray: Ray,
    depth: int,
)
    requires
        path.follows(scene, ray, depth),
        forall|k: int, h: Intersection|
            0 <= k < scene.shapes@.len() ==> (#[trigger] scene.shapes@[k].surface(
                h,
            )).albedo().not_negative(),
    ensures
        forall|k: int| 0 <= k < path.albedos@.len() ==> (#[trigger] path.albedos@[k]).not_negative(),
{
    assert forall|k: int| 0 <= k < path.albedos@.len() implies (#[trigger] path.albedos@[
        k
    ]).not_negative() by {
        let step = path.steps@[k];
        assert(is_nearest(scene.answers(step.ray), step.shape));
        assert(scene.shapes@[step.shape].surface(step.hit).albedo().not_negative());
    }
}

/// Follows a ray through the scene for at most `depth + 1` meetings. At each
/// meeting the material of the nearest shape ahead scatters the ray or absorbs
/// it; a ray that meets nothing escapes. The light of the path is the light of
/// its end, tinted by each albedo in turn, the last one first.
pub fn color_rec<S: Shape>(ray: &Ray, scene: &Scene<S>, depth: i32) -> (path: LightPath)
    ensures
        path.follows(scene, *ray, depth as int),
{
    let mut albedos: Vec<Vec3> = Vec::new();
    let ghost mut steps: Seq<Step> = Seq::empty();
    let mut current: Ray = *ray;
    let mut left: i32 = depth;
    while left >= 0
        invariant
            left <= depth,
            depth >= 0 ==> left >= -1 && albedos@.len() == depth - left,
            depth < 0 ==> albedos@.len() == 0,
            steps.len() == albedos@.len(),
            steps.len() == 0 ==> current == *ray,
            steps.len() > 0 ==> steps[0].ray == *ray,
            forall|k: int|
                0 <= k < steps.len() ==> {
                    &&& is_nearest(scene.answers((#[trigger] steps[k]).ray), steps[k].shape)
                    &&& scene.answers(steps[k].ray)[steps[k].shape] == Some(steps[k].hit)
                    &&& scene.shapes@[steps[k].shape].surface(steps[k].hit).albedo() == albedos@[k]
                    &&& scene.shapes@[steps[k].shape].surface(steps[k].hit).scatters(
                        steps[k].ray,
                        steps[k].hit,
                        Some(leaving(steps, current, k)),
                    )
                },
        decreases left + 1,
    {
        let found = closest(&current, scene);
        match found {
            None => {
                return LightPath { albedos, end: Outcome::Escaped, last: current, steps: Ghost(steps) };
            },
            Some((i, h)) => {
                let material = scene.shapes[i].material_at(&h);
                match material.scatter(&current, &h) {
                    None => {
                        let path = LightPath {
                            albedos,
                            end: Outcome::Absorbed,
                            last: current,
                            steps: Ghost(steps),
                        };
                        assert(is_nearest(scene.answers(path.last), i as int));
                        assert(scene.shapes@[i as int].surface(h).scatters(path.last, h, None));
                        return path;
                    },
                    Some(next) => {
                        albedos.push(material.color());
                        proof {
                            let before = steps;
                            steps = steps.push(Step { ray: current, shape: i as int, hit: h });
                            assert forall|k: int| 0 <= k < steps.len() implies (
                            #[trigger] scene.shapes@[steps[k].shape].surface(steps[k].hit)).scatters(
                                steps[k].ray,
                                steps[k].hit,
                                Some(leaving(steps, next, k)),
                            ) by {
                                if k < before.len() {
                                    assert(steps[k] == before[k]);
                                    assert(leaving(steps, next, k) == leaving(before, current, k));
                                }
                            }
                        }
                        current = next;
                        left = left - 1;
                    },
                }
            },
        }
    }
    LightPath { albedos, end: Outcome::Absorbed, last: current, steps: Ghost(steps) }
}

/// Follows a ray to the usual depth.
pub fn color<S: Shape>(ray: &Ray, scene: &Scene<S>) -> (path: LightPath)
    ensures
        path.follows(scene, *ray, MAX_DEPTH as int),
{
    color_rec(ray, scene, MAX_DEPTH)
}

/// Whether `sum` can be the light gathered for pixel `(x, y)` over `n`
/// samples: starting from black, each sample is a ray that `camera` gave for
/// the pixel, followed through the scene to the usual depth, and `gather`
/// added the light of that path to what was gathered before.
pub open spec fn gathers<S: Shape, C: Fn(u32, u32) -> Ray, A: Fn(Vec3, LightPath) -> Vec3>(
    scene: &Scene<S>,
    camera: C,
    gather: A,
    x: u32,
    y: u32,
    n: nat,
    sum: Vec3,
) -> bool
    decreases n,
{
    if n == 0 {
        sum == Vec3::zeros()
    } else {
        exists|part: Vec3, ray: Ray, path: LightPath|
            {
                &&& gathers(scene, camera, gather, x, y, (n - 1) as nat, part)
                &&& #[trigger] camera.ensures((x, y), ray)
                &&& path.follows(scene, ray, MAX_DEPTH as int)
                &&& #[trigger] gather.ensures((part, path), sum)
            }
    }
}

/// The three bytes of a color: each channel cut off to a whole number and kept within a byte.
pub open spec fn bytes_of(color: Vec3) -> Seq<u8> {
    seq![channel(color.x), channel(color.y), channel(color.z)]
}

/// The three bytes of a color.
pub fn quantise(color: Vec3) -> (rgb: [u8; 3])
    ensures
        rgb@ == bytes_of(color),
{
    let rgb = [to_channel(color.x), to_channel(color.y), to_channel(color.z)];
    assert(rgb@ =~= bytes_of(color));
    rgb
}

/// Whether `px` can be pixel `(x, y)`: the bytes of the light gathered for it
/// over `samples` samples, after `develop` scaled it to the range of a byte.
pub open spec fn develops<
    S: Shape,
    C: Fn(u32, u32) -> Ray,
    A: Fn(Vec3, LightPath) -> Vec3,
    T: Fn(Vec3, u32) -> Vec3,
>(scene: &Scene<S>, camera: C, gather: A, develop: T, x: u32, y: u32, samples: u32, px: Seq<u8>) -> bool {
    exists|sum: Vec3, toned: Vec3|
        {
            &&& gathers(scene, camera, gather, x, y, samples as nat, sum)
            &&& #[trigger] develop.ensures((sum, samples), toned)
            &&& px == bytes_of(toned)
        }
}

/// Renders row `y_offset` of a picture `width` pixels wide. For each pixel it
/// takes `samples` rays from `camera`, follows each through the scene, lets
/// `gather` add the light of each path to the light of the pixel, lets
/// `develop` scale that light to the range of a byte, and stores its bytes.
pub fn render_scanline<S, C, A, T>(
    y_offset: u32,
    width: u32,
    samples: u32,
    scene: &Scene<S>,
    camera: &C,
    gather: &A,
    develop: &T,
) -> (line: Raster) where
    S: Shape,
    C: Fn(u32, u32) -> Ray,
    A: Fn(Vec3, LightPath) -> Vec3,
    T: Fn(Vec3, u32) -> Vec3,

    requires
        fits(width, 1),
        forall|x: u32, y: u32| camera.requires((x, y)),
        forall|sum: Vec3, path: LightPath| gather.requires((sum, path)),
        forall|sum: Vec3, n: u32| develop.requires((sum, n)),
    ensures
        extent(line) == (width as nat, 1nat),
        dense(line),
        forall|x: u32|
            x < width ==> develops(
                scene,
                *camera,
                *gather,
                *develop,
                x,
                y_offset,
                samples,
                #[trigger] pixel(line, x as int, 0),
            ),
{
    let mut line = blank(width, 1);
    let mut i: u32 = 0;
    while i < width
        invariant
            i <= width,
            extent(line) == (width as nat, 1nat),
            dense(line),
            forall|x: u32, y: u32| camera.requires((x, y)),
            forall|sum: Vec3, path: LightPath| gather.requires((sum, path)),
            forall|sum: Vec3, n: u32| develop.requires((sum, n)),
            forall|x: u32|
                x < i ==> develops(
                    scene,
                    *camera,
                    *gather,
                    *develop,
                    x,
                    y_offset,
                    samples,
                    #[trigger] pixel(line, x as int, 0),
                ),
        decreases width - i,
    {
        let mut sum: Vec3 = Vec3::zeros();
        let mut taken: u32 = 0;
        while taken < samples
            invariant
                taken <= samples,
                forall|x: u32, y: u32| camera.requires((x, y)),
                forall|sum: Vec3, path: LightPath| gather.requires((sum, path)),
                gathers(scene, *camera, *gather, i, y_offset, taken as nat, sum),
            decreases samples - taken,
        {
            let ray = camera(i, y_offset);
            let path = color(&ray, scene);
            sum = gather(sum, path);
            taken = taken + 1;
        }
        let toned = develop(sum, samples);
        let rgb = quantise(toned);
        let ghost before = line;
        paint(&mut line, i, 0, rgb);
        proof {
            lemma_painted(before, i as int, 0, rgb@, line);
            assert(develops(
                scene,
                *camera,
                *gather,
                *develop,
                i,
                y_offset,
                samples,
                pixel(line, i as int, 0),
            ));
        }
        i = i + 1;
    }
    line
}

/// Why a finished row was not taken into the film.
#[derive(Clone, Copy, Debug, PartialEq, Eq, Structural)]
pub enum RenderError {
    /// No worker was given this row.
    NotHandedOut,
    /// The row is in the film already.
    AlreadyStored,
    /// The line is not one row of the film's width.
    WrongExtent,
}

/// A sequence without repeats, all of whose entries lie in `0..n` and none of
/// which is `y`, is shorter than `n`.
pub proof fn lemma_room_left(log: Seq<int>, n: int, y: int)
    requires
        log.no_duplicates(),
        forall|i: int| 0 <= i < log.len() ==> 0 <= (#[trigger] log[i]) < n,
        0 <= y < n,
        !log.contains(y),
    ensures
        log.len() < n,
{
    let rest = set_int_range(0, n).remove(y);
    lemma_int_range(0, n);
    log.unique_seq_to_set();
    assert(log.to_set().subset_of(rest)) by {
        assert forall|v: int| log.to_set().contains(v) implies rest.contains(v) by {
            let i = choose|i: int| 0 <= i < log.len() && log[i] == v;
            assert(0 <= log[i] < n);
        }
    }
    lemma_len_subset(log.to_set(), rest);
}

/// The share of the rows that are done, in percent, rounded down.
pub open spec fn percent(count: int, height: int) -> int {
    if height == 0 {
        100
    } else {
        count * 100 / height
    }
}

/// The share of rows done never falls as rows come in, stays between 0 and
/// 100, and is 100 when all are in.
pub proof fn lemma_percent_rises(earlier: int, later: int, height: int)
    requires
        0 <= earlier <= later <= height,
    ensures
        0 <= percent(earlier, height) <= percent(later, height) <= 100,
        percent(height, height) == 100,
{
    if height > 0 {
        assert(0 <= earlier * 100 / height <= later * 100 / height <= 100 && height * 100 / height
            == 100) by (nonlinear_arith)
            requires
                0 <= earlier <= later <= height,
                height > 0,
        ;
    }
}

/// The state of one rendering: the film, the scene, the queue of rows still
/// to hand out and the record of the rows that came back.
///
/// Workers take rows from the queue with `take_row` and render them with
/// `render_scanline`; one collector hands each finished row to `collect`.
/// The rendering is done when every row has come back.
pub struct Renderer<S: Shape> {
    pub film: Film,
    /// The scene, which the workers share.
    pub scene: Arc<Scene<S>>,
    /// The rows `0..next` have been handed out.
    pub next: u32,
    /// For each row, whether it is in the film.
    pub stored: Vec<bool>,
    /// How many rows are in the film.
    pub count: u32,
    /// The rows that were written to the film, in the order in which they came back.
    pub log: Ghost<Seq<int>>,
}

impl<S: Shape> Renderer<S> {
    /// The record agrees with itself: every row written was handed out
    /// before, no row was written twice, and `stored` and `count` say what
    /// the log says.
    pub open spec fn wf(&self) -> bool {
        &&& self.film.wf()
        &&& self.stored@.len() == self.film.height
        &&& self.next <= self.film.height
        &&& self.count == self.log@.len()
        &&& self.log@.no_duplicates()
        &&& forall|i: int| 0 <= i < self.log@.len() ==> 0 <= (#[trigger] self.log@[i]) < self.next
        &&& forall|y: int|
            0 <= y < self.film.height ==> (#[trigger] self.stored@[y] <==> self.log@.contains(y))
    }

    /// Whether every row is in the film.
    pub open spec fn done(&self) -> bool {
        self.count == self.film.height
    }

    /// A rendering that has not begun: no row handed out, none written.
    pub fn new(film: Film, scene: Arc<Scene<S>>) -> (r: Renderer<S>)
        requires
            film.wf(),
        ensures
            r.wf(),
            r.film == film,
            r.scene == scene,
            r.next == 0,
            r.count == 0,
            r.log@ == Seq::<int>::empty(),
    {
        let mut stored: Vec<bool> = Vec::new();
        let mut y: u32 = 0;
        while y < film.height
            invariant
                y <= film.height,
                stored@.len() == y,
                forall|k: int| 0 <= k < y ==> !(#[trigger] stored@[k]),
            decreases film.height - y,
        {
            stored.push(false);
            y = y + 1;
        }
        Renderer { film, scene, next: 0, stored, count: 0, log: Ghost(Seq::empty()) }
    }

    /// Takes the next row from the queue, or `None` once every row has been
    /// handed out. No row is handed out twice.
    pub fn take_row(&mut self) -> (row: Option<u32>)
        requires
            old(self).wf(),
        ensures
            final(self).wf(),
            row == if old(self).next < old(self).film.height {
                Some(old(self).next)
            } else {
                None
            },
            final(self).next == old(self).next + if row is Some { 1int } else { 0int },
            final(self).film == old(self).film,
            final(self).scene == old(self).scene,
            final(self).stored == old(self).stored,
            final(self).count == old(self).count,
            final(self).log == old(self).log,
    {
        if self.next < self.film.height {
            let row: u32 = self.next;
            self.next = row + 1;
            Some(row)
        } else {
            None
        }
    }

    /// Whether every row is in the film.
    pub fn is_done(&self) -> (r: bool)
        ensures
            r == self.done(),
    {
        self.count == self.film.height
    }

    /// Takes a finished row into the film and returns the share of the rows
    /// that are done, in percent. The row must have been handed out, must not
    /// be in the film yet, and the line must be one row of the film's width;
    /// otherwise nothing changes.
    pub fn collect(&mut self, row: u32, line: &Raster) -> (r: Result<i32, RenderError>)
        requires
            old(self).wf(),
        ensures
            final(self).wf(),
            final(self).next == old(self).next,
            final(self).scene == old(self).scene,
            final(self).film.width == old(self).film.width,
            final(self).film.height == old(self).film.height,
            final(self).film.samples == old(self).film.samples,
            final(self).film.filename == old(self).film.filename,
            r is Ok <==> row < old(self).next && !old(self).stored@[row as int] && extent(*line) == (
                old(self).film.width as nat,
                1nat,
            ),
            r is Ok ==> {
                &&& overlaid(old(self).film.image, *line, 0, row as int, final(self).film.image)
                &&& final(self).log@ == old(self).log@.push(row as int)
                &&& final(self).stored@ == old(self).stored@.update(row as int, true)
                &&& final(self).count == old(self).count + 1
                &&& r.unwrap() == percent(final(self).count as int, final(self).film.height as int)
                &&& 0 <= r.unwrap() <= 100
            },
            r is Err ==> {
                &&& *final(self) == *old(self)
                &&& r.unwrap_err() == if row >= old(self).next {
                    RenderError::NotHandedOut
                } else if old(self).stored@[row as int] {
                    RenderError::AlreadyStored
                } else {
                    RenderError::WrongExtent
                }
            },
    {
        if row >= self.next {
            return Err(RenderError::NotHandedOut);
        }
        if self.stored[row as usize] {
            return Err(RenderError::AlreadyStored);
        }
        if line.width() != self.film.width || line.height() != 1 {
            return Err(RenderError::WrongExtent);
        }
        proof {
            lemma_room_left(self.log@, self.film.height as int, row as int);
        }
        let ghost before = *self;
        match self.film.set_line(line, row) {
            Ok(()) => {},
            Err(_) => {
                assert(false);
                return Err(RenderError::WrongExtent);
            },
        }
        self.stored.set(row as usize, true);
        self.count = self.count + 1;
        proof {
            self.log = Ghost(self.log@.push(row as int));
            assert forall|y: int| 0 <= y < self.film.height implies (#[trigger] self.stored@[y]
                <==> self.log@.contains(y)) by {
                if y == row {
                    assert(self.log@[before.log@.len() as int] == y);
                } else {
                    if before.log@.contains(y) {
                        let i = choose|i: int| 0 <= i < before.log@.len() && before.log@[i] == y;
                        assert(self.log@[i] == y);
                    }
                }
            }
        }
        let done: u64 = self.count as u64 * 100;
        let share: u64 = done / (self.film.height as u64);
        assert(share <= 100) by (nonlinear_arith)
            requires
                share == done / (self.film.height as u64),
                done == self.count * 100,
                0 < self.count <= self.film.height,
        ;
        Ok(share as i32)
    }

    /// Renders the whole film on one thread: takes each row from the queue,
    /// renders it and stores it, and reports the share of rows done after
    /// each. The rendering must not have begun.
    pub fn render<C, A, T, R>(&mut self, camera: &C, gather: &A, develop: &T, report: &R) where
        C: Fn(u32, u32) -> Ray,
        A: Fn(Vec3, LightPath) -> Vec3,
        T: Fn(Vec3, u32) -> Vec3,
        R: Fn(i32),

        requires
            old(self).wf(),
            old(self).next == 0,
            forall|x: u32, y: u32| camera.requires((x, y)),
            forall|sum: Vec3, path: LightPath| gather.requires((sum, path)),
            forall|sum: Vec3, n: u32| develop.requires((sum, n)),
            forall|share: i32| report.requires((share,)),
        ensures
            final(self).wf(),
            final(self).done(),
            final(self).scene == old(self).scene,
            final(self).film.width == old(self).film.width,
            final(self).film.height == old(self).film.height,
            final(self).film.samples == old(self).film.samples,
            final(self).film.filename == old(self).film.filename,
            final(self).log@ == Seq::new(old(self).film.height as nat, |y: int| y),
            forall|x: u32, y: u32|
                x < old(self).film.width && y < old(self).film.height ==> develops(
                    &*old(self).scene,
                    *camera,
                    *gather,
                    *develop,
                    x,
                    y,
                    old(self).film.samples,
                    #[trigger] pixel(final(self).film.image, x as int, y as int),
                ),
    {
        proof {
            let fresh = *self;
            if fresh.log@.len() > 0 {
                assert(0 <= fresh.log@[0] < fresh.next);
            }
            assert(self.log@ =~= Seq::new(0nat, |y: int| y));
        }
        loop
            invariant
                self.wf(),
                self.next == self.count,
                self.log@ == Seq::new(self.next as nat, |y: int| y),
                self.scene == old(self).scene,
                self.film.width == old(self).film.width,
                self.film.height == old(self).film.height,
                self.film.samples == old(self).film.samples,
                self.film.filename == old(self).film.filename,
                forall|x: u32, y: u32| camera.requires((x, y)),
                forall|sum: Vec3, path: LightPath| gather.requires((sum, path)),
                forall|sum: Vec3, n: u32| develop.requires((sum, n)),
                forall|share: i32| report.requires((share,)),
                forall|x: u32, y: u32|
                    x < self.film.width && y < self.next ==> develops(
                        &*self.scene,
                        *camera,
                        *gather,
                        *develop,
                        x,
                        y,
                        self.film.samples,
                        #[trigger] pixel(self.film.image, x as int, y as int),
                    ),
            ensures
                self.wf(),
                self.next == self.count,
                self.next == self.film.height,
                self.log@ == Seq::new(self.next as nat, |y: int| y),
                self.scene == old(self).scene,
                self.film.width == old(self).film.width,
                self.film.height == old(self).film.height,
                self.film.samples == old(self).film.samples,
                self.film.filename == old(self).film.filename,
                forall|x: u32, y: u32|
                    x < self.film.width && y < self.next ==> develops(
                        &*self.scene,
                        *camera,
                        *gather,
                        *develop,
                        x,
                        y,
                        self.film.samples,
                        #[trigger] pixel(self.film.image, x as int, y as int),
                    ),
            decreases self.film.height - self.next,
        {
            let ghost before = *self;
            let taken = self.take_row();
            let row: u32 = match taken {
                None => {
                    break ;
                },
                Some(row) => row,
            };
            assert(3 * self.film.width <= 3 * self.film.width * self.film.height) by (nonlinear_arith)
                requires
                    self.film.height >= 1,
            ;
            let line = render_scanline(
                row,
                self.film.width,
                self.film.samples,
                &self.scene,
                camera,
                gather,
                develop,
            );
            assert(!self.log@.contains(row as int));
            let ghost held = self.film.image;
            match self.collect(row, &line) {
                Ok(share) => {
                    report(share);
                },
                Err(_) => {
                    assert(false);
                },
            }
            proof {
                assert(self.log@ =~= Seq::new(self.next as nat, |y: int| y));
                assert forall|x: u32, y: u32|
                    x < self.film.width && y < self.next implies develops(
                    &*self.scene,
                    *camera,
                    *gather,
                    *develop,
                    x,
                    y,
                    self.film.samples,
                    #[trigger] pixel(self.film.image, x as int, y as int),
                ) by {
                    if y == row {
                        assert(pixel(self.film.image, x as int, y as int) == pixel(
                            line,
                            x as int,
                            0,
                        ));
                    } else {
                        assert(pixel(self.film.image, x as int, y as int) == pixel(
                            held,
                            x as int,
                            y as int,
                        ));
                    }
                }
            }
        }
    }
}

/// When a rendering is done, every row of the film was written exactly once.
pub proof fn lemma_rows_covered<S: Shape>(r: Renderer<S>, y: int)
    requires
        r.wf(),
        r.done(),
        0 <= y < r.film.height,
    ensures
        r.log@.to_multiset().count(y) == 1,
        r.stored@[y],
        r.next == r.film.height,
{
    if !r.log@.contains(y) {
        lemma_room_left(r.log@, r.film.height as int, y);
    }
    r.log@.lemma_multiset_has_no_duplicates();
    vstd::seq_lib::to_multiset_contains(r.log@, y);
    if r.next < r.film.height {
        lemma_room_left(r.log@, r.film.height as int, r.next as int);
    }
}

} // verus!
