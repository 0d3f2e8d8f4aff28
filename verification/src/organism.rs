//! The density-gated growth process.
//!
//! Organisms age each tick; one that outlives the maximum age gives its
//! footprint back to the shared density field and is removed. An organism
//! past the propagation age draws one Bernoulli trial per tick; on success
//! a candidate position is sampled in a disk around it, and the child is
//! spawned only if the candidate lies in the world rectangle and the
//! density sampled there does not exceed the occupancy threshold — the
//! carrying-capacity brake. A spawned child adds its footprint to the
//! density field, so the field integrates the footprints of the living.

use vstd::prelude::*;

use crate::scalar::{Value, UNIT, add_fin, lt_v};
use crate::domain::{
    Field, COORD_LIMIT, RADIUS_LIMIT, WORLD_EXTENT, bilinear_spec, cell_dist2, kernel_apply,
    kernel_touches, kernel_weight, lemma_kernel_weight_bounds,
};
use crate::rng_source::draw_range;

verus! {

/// Largest visual scale an organism grows to, one unit.
pub const MAX_SIZE: i64 = 65536;

/// Age at which an organism dies, sixty seconds.
pub const MAX_AGE: i64 = 3932160;

/// Per-tick spawn probability of an eligible organism, about one percent.
pub const SPAWN_PROP: i64 = 655;

/// Age from which an organism may propagate, two seconds.
pub const MIN_PROPAGATION_AGE: i64 = 131072;

/// Density above which a candidate position is already occupied, one half.
pub const OCCUPANCY_THRESHOLD: i64 = 32768;

/// Radius of the disk a child is sampled in, one unit.
pub const SPAWN_RADIUS: i64 = 65536;

/// Radius of the footprint an organism adds to the density field.
pub const FOOTPRINT_RADIUS: i64 = 8192;

/// How far below the sampled terrain height a child is embedded.
pub const EMBED_DEPTH: i64 = 6554;

/// Largest age and tick length the aging arithmetic carries.
pub const AGE_LIMIT: i64 = 0x4000_0000_0000;

/// The tunable constants of the growth process, as fixed-point mantissas.
pub struct GrowthParams {
    pub max_age: i64,
    pub min_propagation_age: i64,
    pub spawn_probability: i64,
    pub occupancy_threshold: i64,
    pub spawn_radius: i64,
    pub footprint_radius: i64,
    pub max_visual_size: i64,
    pub embed_depth: i64,
}

impl GrowthParams {
    /// The parameters are within the ranges the arithmetic carries, with
    /// positive kernel and sampling radii.
    pub open spec fn ok(self) -> bool {
        &&& 0 <= self.max_age <= AGE_LIMIT
        &&& 0 <= self.min_propagation_age
        &&& 0 <= self.spawn_probability <= UNIT
        &&& 0 < self.footprint_radius <= RADIUS_LIMIT
        &&& 0 < self.spawn_radius <= RADIUS_LIMIT
        &&& 0 <= self.max_visual_size
        &&& 0 <= self.embed_depth
    }
}

impl Default for GrowthParams {
    /// The stock tuning of the process.
    fn default() -> (r: GrowthParams)
        ensures
            r.ok(),
            r.max_age == MAX_AGE,
            r.min_propagation_age == MIN_PROPAGATION_AGE,
            r.spawn_probability == SPAWN_PROP,
            r.occupancy_threshold == OCCUPANCY_THRESHOLD,
            r.spawn_radius == SPAWN_RADIUS,
            r.footprint_radius == FOOTPRINT_RADIUS,
            r.max_visual_size == MAX_SIZE,
            r.embed_depth == EMBED_DEPTH,
    {
        GrowthParams {
            max_age: MAX_AGE,
            min_propagation_age: MIN_PROPAGATION_AGE,
            spawn_probability: SPAWN_PROP,
            occupancy_threshold: OCCUPANCY_THRESHOLD,
            spawn_radius: SPAWN_RADIUS,
            footprint_radius: FOOTPRINT_RADIUS,
            max_visual_size: MAX_SIZE,
            embed_depth: EMBED_DEPTH,
        }
    }
}

/// One organism: its age in seconds and its world position, both as
/// fixed-point mantissas. Positions never change after spawn.
#[derive(Clone, Copy, PartialEq, Eq, Structural, Debug)]
pub struct Organism {
    pub age: i64,
    pub x: i64,
    pub z: i64,
}

/// The organism's age and position are within the ranges the field and
/// aging arithmetic carry.
pub open spec fn organism_ok(o: Organism) -> bool {
    &&& 0 <= o.age <= AGE_LIMIT
    &&& -COORD_LIMIT <= o.x <= COORD_LIMIT
    &&& -COORD_LIMIT <= o.z <= COORD_LIMIT
}

/// The organism one tick older.
pub open spec fn aged(o: Organism, elapsed: int) -> Organism
    recommends
        o.age + elapsed <= i64::MAX,
{
    Organism { age: (o.age + elapsed) as i64, x: o.x, z: o.z }
}

/// The organisms alive after one aging pass: everyone ages by `elapsed`,
/// and those strictly past `max_age` are removed, order kept.
pub open spec fn survivors_after(s: Seq<Organism>, elapsed: int, max_age: int) -> Seq<Organism>
    decreases s.len(),
{
    if s.len() == 0 {
        Seq::empty()
    } else {
        let rest = survivors_after(s.drop_last(), elapsed, max_age);
        let o = aged(s.last(), elapsed);
        if o.age <= max_age {
            rest.push(o)
        } else {
            rest
        }
    }
}

/// The density field after the aging pass: each organism that dies gives
/// back its footprint, a negated unit kernel at its position, in order.
pub open spec fn density_after_deaths(
    cells: Seq<Value>,
    nx: int,
    scale: int,
    s: Seq<Organism>,
    elapsed: int,
    max_age: int,
    radius: int,
) -> Seq<Value>
    decreases s.len(),
{
    if s.len() == 0 {
        cells
    } else {
        let prev = density_after_deaths(cells, nx, scale, s.drop_last(), elapsed, max_age, radius);
        let o = s.last();
        if o.age + elapsed > max_age {
            kernel_apply(
                prev,
                nx,
                o.x * scale,
                o.z * scale,
                (radius * scale) * (radius * scale),
                -(UNIT as int),
            )
        } else {
            prev
        }
    }
}

/// The position lies in the world rectangle.
pub open spec fn in_world(x: int, z: int) -> bool {
    &&& 0 <= x <= WORLD_EXTENT
    &&& 0 <= z <= WORLD_EXTENT
}

/// The parent is old enough to propagate and the child lies within its
/// spawn disk.
pub open spec fn possible_parent(child: Organism, parent: Organism, min_age: int, radius: int) -> bool {
    &&& parent.age >= min_age
    &&& (child.x - parent.x) * (child.x - parent.x) + (child.z - parent.z) * (child.z - parent.z)
        <= radius * radius
}

/// Some organism of the population could have spawned this child: it is
/// past the propagation age and the child lies in its spawn disk.
pub open spec fn parented_by_some(
    child: Organism,
    parents: Seq<Organism>,
    min_age: int,
    radius: int,
) -> bool {
    exists|j: int| 0 <= j < parents.len() && #[trigger] possible_parent(
        child,
        parents[j],
        min_age,
        radius,
    )
}

/// The density field after the propagation pass: each spawned child adds
/// its footprint, a positive unit kernel at its birth position, in order.
/// Nothing else in the pass writes the field.
pub open spec fn density_after_spawns(
    cells: Seq<Value>,
    nx: int,
    scale: int,
    spawned: Seq<(Organism, Value)>,
    radius: int,
) -> Seq<Value>
    decreases spawned.len(),
{
    if spawned.len() == 0 {
        cells
    } else {
        let prev = density_after_spawns(cells, nx, scale, spawned.drop_last(), radius);
        let child = spawned.last().0;
        kernel_apply(
            prev,
            nx,
            child.x * scale,
            child.z * scale,
            (radius * scale) * (radius * scale),
            UNIT as int,
        )
    }
}

/// `b` is `a` grown by a nonnegative amount: an invalid cell stays
/// invalid, and an ordered cell never compares below where it started.
pub open spec fn never_below(a: Value, b: Value) -> bool {
    if a is Nan {
        b is Nan
    } else {
        !(b is Nan) && !lt_v(b, a)
    }
}

/// One kernel write of a nonnegative amount leaves every cell at or above
/// its old value.
pub proof fn lemma_kernel_apply_never_below(
    cells: Seq<Value>,
    nx: int,
    gcx: int,
    gcy: int,
    r2: int,
    amount: int,
)
    requires
        0 <= amount <= i64::MAX,
    ensures
        kernel_apply(cells, nx, gcx, gcy, r2, amount).len() == cells.len(),
        forall|i: int| 0 <= i < cells.len() ==> never_below(
            cells[i],
            #[trigger] kernel_apply(cells, nx, gcx, gcy, r2, amount)[i],
        ),
{
    let result = kernel_apply(cells, nx, gcx, gcy, r2, amount);
    assert forall|i: int| 0 <= i < cells.len() implies never_below(cells[i], result[i]) by {
        let ix = i % nx;
        let iy = i / nx;
        if kernel_touches(ix, iy, gcx, gcy, r2) {
            let d2 = cell_dist2(ix, iy, gcx, gcy);
            assert((ix * UNIT - gcx) * (ix * UNIT - gcx) >= 0) by (nonlinear_arith);
            assert((iy * UNIT - gcy) * (iy * UNIT - gcy) >= 0) by (nonlinear_arith);
            lemma_kernel_weight_bounds(amount, d2, r2);
            assert(kernel_weight(amount, d2, r2) >= 0);
        }
    }
}

/// Propagation never lowers the density: the pass writes only positive
/// unit kernels, so every invalid cell stays invalid and every ordered
/// cell ends at or above where it started.
pub proof fn lemma_spawns_never_decrease(
    cells: Seq<Value>,
    nx: int,
    scale: int,
    spawned: Seq<(Organism, Value)>,
    radius: int,
)
    ensures
        density_after_spawns(cells, nx, scale, spawned, radius).len() == cells.len(),
        forall|i: int| 0 <= i < cells.len() ==> never_below(
            cells[i],
            #[trigger] density_after_spawns(cells, nx, scale, spawned, radius)[i],
        ),
    decreases spawned.len(),
{
    if spawned.len() > 0 {
        let prev = density_after_spawns(cells, nx, scale, spawned.drop_last(), radius);
        let child = spawned.last().0;
        lemma_spawns_never_decrease(cells, nx, scale, spawned.drop_last(), radius);
        lemma_kernel_apply_never_below(
            prev,
            nx,
            child.x * scale,
            child.z * scale,
            (radius * scale) * (radius * scale),
            UNIT as int,
        );
    }
}

/// The purely cosmetic visual scale of an organism: its age, capped.
pub fn visual_scale(age: i64, params: &GrowthParams) -> (r: i64)
    ensures
        r == if age <= params.max_visual_size {
            age as int
        } else {
            params.max_visual_size as int
        },
{
    if age <= params.max_visual_size {
        age
    } else {
        params.max_visual_size
    }
}

/// Whether an organism's age makes it a propagation candidate this tick:
/// candidates, and only candidates, draw a Bernoulli trial.
pub fn propagation_candidate(age: i64, params: &GrowthParams) -> (r: bool)
    ensures
        r == (age >= params.min_propagation_age),
{
    age >= params.min_propagation_age
}

/// Whether a candidate's Bernoulli trial — a uniform draw in `UNIT` steps —
/// succeeds: propagation goes on exactly when the draw falls below the
/// spawn probability.
pub fn trial_passes(trial: u64, params: &GrowthParams) -> (r: bool)
    requires
        params.ok(),
    ensures
        r == ((trial as int) < params.spawn_probability),
{
    trial < params.spawn_probability as u64
}

/// The aging and death pass of one tick: every organism ages by `elapsed`;
/// each one strictly past the maximum age gives its footprint back to the
/// density field (before it is removed) and the rest survive in order.
pub fn update_organisms(
    organisms: &mut Vec<Organism>,
    density: &mut Field,
    elapsed: i64,
    params: &GrowthParams,
)
    requires
        old(density).wf(),
        params.ok(),
        0 <= elapsed <= AGE_LIMIT,
        forall|i: int| 0 <= i < old(organisms)@.len() ==> organism_ok(#[trigger] old(organisms)@[i]),
    ensures
        final(density).wf(),
        final(density).nx() == old(density).nx(),
        final(density).ny() == old(density).ny(),
        final(density).scale_of() == old(density).scale_of(),
        final(organisms)@ == survivors_after(old(organisms)@, elapsed as int, params.max_age as int),
        final(density).cells() == density_after_deaths(
            old(density).cells(),
            old(density).nx(),
            old(density).scale_of(),
            old(organisms)@,
            elapsed as int,
            params.max_age as int,
            params.footprint_radius as int,
        ),
        forall|i: int| 0 <= i < final(organisms)@.len() ==> organism_ok(
            #[trigger] final(organisms)@[i],
        ),
{
    let ghost s0 = old(organisms)@;
    let n = organisms.len();
    let mut out: Vec<Organism> = Vec::new();
    let mut i: usize = 0;
    while i < n
        invariant
            n == s0.len(),
            organisms@ == s0,
            i <= n,
            density.wf(),
            density.nx() == old(density).nx(),
            density.ny() == old(density).ny(),
            density.scale_of() == old(density).scale_of(),
            params.ok(),
            0 <= elapsed <= AGE_LIMIT,
            forall|j: int| 0 <= j < s0.len() ==> organism_ok(#[trigger] s0[j]),
            out@ == survivors_after(s0.take(i as int), elapsed as int, params.max_age as int),
            density.cells() == density_after_deaths(
                old(density).cells(),
                old(density).nx(),
                old(density).scale_of(),
                s0.take(i as int),
                elapsed as int,
                params.max_age as int,
                params.footprint_radius as int,
            ),
            forall|j: int| 0 <= j < out@.len() ==> organism_ok(#[trigger] out@[j]),
        decreases n - i,
    {
        let o = organisms[i];
        let new_age = o.age + elapsed;
        proof {
            let t = s0.take(i as int + 1);
            assert(t.drop_last() =~= s0.take(i as int));
            assert(t.last() == s0[i as int]);
        }
        if new_age > params.max_age {
            density.add_kernel(o.x, o.z, params.footprint_radius, -UNIT);
        } else {
            out.push(Organism { age: new_age, x: o.x, z: o.z });
        }
        i = i + 1;
    }
    proof {
        assert(s0.take(n as int) =~= s0);
    }
    *organisms = out;
}

/// A uniform position in the closed disk of `radius` around the origin, by
/// rejection from the bounding square; after a bounded number of draws
/// outside the disk the tick goes without one.
pub fn sample_in_disk(rng: &mut rand::rngs::StdRng, radius: i64) -> (r: Option<(i64, i64)>)
    requires
        0 < radius <= RADIUS_LIMIT,
    ensures
        r matches Some((dx, dz)) ==> {
            &&& -radius <= dx <= radius
            &&& -radius <= dz <= radius
            &&& dx * dx + dz * dz <= radius * radius
        },
{
    let span: u64 = 2 * (radius as u64) + 1;
    let mut k: usize = 0;
    while k < 16
        invariant
            0 < radius <= RADIUS_LIMIT,
            span == 2 * (radius as u64) + 1,
        decreases 16 - k,
    {
        let dx: i64 = draw_range(rng, 0, span) as i64 - radius;
        let dz: i64 = draw_range(rng, 0, span) as i64 - radius;
        proof {
            crate::scalar::lemma_bounded_mul(dx as int, dx as int, RADIUS_LIMIT as int, RADIUS_LIMIT as int);
            crate::scalar::lemma_bounded_mul(dz as int, dz as int, RADIUS_LIMIT as int, RADIUS_LIMIT as int);
            crate::scalar::lemma_bounded_mul(radius as int, radius as int, RADIUS_LIMIT as int, RADIUS_LIMIT as int);
        }
        let d2: i128 = dx as i128 * dx as i128 + dz as i128 * dz as i128;
        let r2: i128 = radius as i128 * radius as i128;
        if d2 <= r2 {
            return Some((dx, dz));
        }
        k = k + 1;
    }
    None
}

/// The deterministic tail of one successful Bernoulli trial: the candidate
/// position `parent + (dx, dz)` spawns a child exactly when it lies in the
/// world rectangle and the density sampled bilinearly there does not exceed
/// the occupancy threshold. On a spawn, the child starts at age zero at the
/// candidate position, its elevation is the bilinear height sample less the
/// embedding depth, and its footprint — a unit kernel — is added to the
/// density field; otherwise the field is untouched.
pub fn spawn_attempt(
    parent: &Organism,
    dx: i64,
    dz: i64,
    density: &mut Field,
    height: &Field,
    params: &GrowthParams,
) -> (r: Option<(Organism, Value)>)
    requires
        organism_ok(*parent),
        params.ok(),
        old(density).wf(),
        height.wf(),
        -params.spawn_radius <= dx <= params.spawn_radius,
        -params.spawn_radius <= dz <= params.spawn_radius,
    ensures
        final(density).wf(),
        final(density).nx() == old(density).nx(),
        final(density).ny() == old(density).ny(),
        final(density).scale_of() == old(density).scale_of(),
        ({
            let px = parent.x + dx;
            let pz = parent.z + dz;
            let sampled = bilinear_spec(
                old(density).cells(),
                old(density).nx(),
                old(density).ny(),
                px * old(density).scale_of(),
                pz * old(density).scale_of(),
            );
            if in_world(px as int, pz as int) && !lt_v(
                Value::Finite(params.occupancy_threshold),
                sampled,
            ) {
                r == Some(
                    (
                        Organism { age: 0, x: px as i64, z: pz as i64 },
                        add_fin(
                            bilinear_spec(
                                height.cells(),
                                height.nx(),
                                height.ny(),
                                px * height.scale_of(),
                                pz * height.scale_of(),
                            ),
                            -params.embed_depth,
                        ),
                    ),
                ) && final(density).cells() == kernel_apply(
                    old(density).cells(),
                    old(density).nx(),
                    px * old(density).scale_of(),
                    pz * old(density).scale_of(),
                    (params.footprint_radius * old(density).scale_of()) * (
                    params.footprint_radius * old(density).scale_of()),
                    UNIT as int,
                )
            } else {
                r is None && final(density).cells() == old(density).cells()
            }
        }),
{
    let px = parent.x + dx;
    let pz = parent.z + dz;
    if px < 0 || px > WORLD_EXTENT || pz < 0 || pz > WORLD_EXTENT {
        return None;
    }
    let sampled = density.get_bilinear(px, pz);
    if Value::Finite(params.occupancy_threshold).lt(sampled) {
        return None;
    }
    let h = height.get_bilinear(px, pz);
    let elevation = h.add_scalar(-params.embed_depth);
    density.add_kernel(px, pz, params.footprint_radius, UNIT);
    Some((Organism { age: 0, x: px, z: pz }, elevation))
}

/// The propagation pass of one tick, over the organisms alive at its
/// start: each one past the propagation age draws one Bernoulli trial, a
/// successful trial samples a candidate position in the spawn disk, and
/// `spawn_attempt` decides the rest. Children are appended to the
/// population and returned with their elevations; no existing organism
/// changes. How many spawn depends on the draws, but whatever came back:
/// the final density is exactly the old field with one positive unit
/// footprint kernel per returned child, in order — so the pass never
/// lowers a cell (`lemma_spawns_never_decrease`) — and every child starts
/// at age zero inside the world rectangle, within the spawn disk of an
/// organism that was past the propagation age.
pub fn propagate_organisms(
    organisms: &mut Vec<Organism>,
    density: &mut Field,
    height: &Field,
    rng: &mut rand::rngs::StdRng,
    params: &GrowthParams,
) -> (spawned: Vec<(Organism, Value)>)
    requires
        old(density).wf(),
        height.wf(),
        params.ok(),
        forall|i: int| 0 <= i < old(organisms)@.len() ==> organism_ok(#[trigger] old(organisms)@[i]),
    ensures
        final(density).wf(),
        final(density).nx() == old(density).nx(),
        final(density).ny() == old(density).ny(),
        final(density).scale_of() == old(density).scale_of(),
        final(organisms)@.len() == old(organisms)@.len() + spawned@.len(),
        final(organisms)@.take(old(organisms)@.len() as int) == old(organisms)@,
        forall|i: int| 0 <= i < spawned@.len() ==> final(organisms)@[old(organisms)@.len() + i]
            == (#[trigger] spawned@[i]).0,
        forall|i: int| 0 <= i < spawned@.len() ==> {
            &&& (#[trigger] spawned@[i]).0.age == 0
            &&& in_world(spawned@[i].0.x as int, spawned@[i].0.z as int)
            &&& organism_ok(spawned@[i].0)
            &&& parented_by_some(
                spawned@[i].0,
                old(organisms)@,
                params.min_propagation_age as int,
                params.spawn_radius as int,
            )
        },
        final(density).cells() == density_after_spawns(
            old(density).cells(),
            old(density).nx(),
            old(density).scale_of(),
            spawned@,
            params.footprint_radius as int,
        ),
        (forall|i: int| 0 <= i < old(organisms)@.len() ==> (#[trigger] old(organisms)@[i]).age
            < params.min_propagation_age) ==> {
            &&& spawned@.len() == 0
            &&& final(organisms)@ == old(organisms)@
            &&& final(density).cells() == old(density).cells()
        },
{
    let ghost s0 = old(organisms)@;
    let n = organisms.len();
    let mut spawned: Vec<(Organism, Value)> = Vec::new();
    let mut i: usize = 0;
    while i < n
        invariant
            n == s0.len(),
            i <= n,
            density.wf(),
            density.nx() == old(density).nx(),
            density.ny() == old(density).ny(),
            density.scale_of() == old(density).scale_of(),
            height.wf(),
            params.ok(),
            forall|j: int| 0 <= j < s0.len() ==> organism_ok(#[trigger] s0[j]),
            organisms@.len() == s0.len() + spawned@.len(),
            organisms@.take(s0.len() as int) == s0,
            forall|j: int| 0 <= j < spawned@.len() ==> organisms@[s0.len() + j] == (
            #[trigger] spawned@[j]).0,
            forall|j: int| 0 <= j < spawned@.len() ==> {
                &&& (#[trigger] spawned@[j]).0.age == 0
                &&& in_world(spawned@[j].0.x as int, spawned@[j].0.z as int)
                &&& organism_ok(spawned@[j].0)
                &&& parented_by_some(
                    spawned@[j].0,
                    s0,
                    params.min_propagation_age as int,
                    params.spawn_radius as int,
                )
            },
            density.cells() == density_after_spawns(
                old(density).cells(),
                old(density).nx(),
                old(density).scale_of(),
                spawned@,
                params.footprint_radius as int,
            ),
            (forall|j: int| 0 <= j < s0.len() ==> (#[trigger] s0[j]).age
                < params.min_propagation_age) ==> {
                &&& spawned@.len() == 0
                &&& organisms@ == s0
                &&& density.cells() == old(density).cells()
            },
        decreases n - i,
    {
        let o = organisms[i];
        proof {
            assert(organisms@.take(s0.len() as int)[i as int] == organisms@[i as int]);
        }
        if propagation_candidate(o.age, params) {
            let trial = draw_range(rng, 0, 65536);
            if trial_passes(trial, params) {
                match sample_in_disk(rng, params.spawn_radius) {
                    Some((dx, dz)) => {
                        let ghost pre_spawned = spawned@;
                        let ghost pre_cells = density.cells();
                        match spawn_attempt(&o, dx, dz, density, height, params) {
                            Some((child, elevation)) => {
                                organisms.push(child);
                                spawned.push((child, elevation));
                                proof {
                                    assert(organisms@.take(s0.len() as int) =~= s0);
                                    assert(spawned@.drop_last() =~= pre_spawned);
                                    assert(spawned@.last() == (child, elevation));
                                    assert(possible_parent(
                                        child,
                                        s0[i as int],
                                        params.min_propagation_age as int,
                                        params.spawn_radius as int,
                                    ));
                                }
                            },
                            None => {},
                        }
                    },
                    None => {},
                }
            }
        }
        i = i + 1;
    }
    spawned
}

} // verus!
