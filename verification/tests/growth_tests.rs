use rand::SeedableRng;
use verdure::domain::Field;
use verdure::organism::{
    propagation_candidate, propagate_organisms, sample_in_disk, spawn_attempt, trial_passes,
    update_organisms, visual_scale, GrowthParams, Organism,
};
use verdure::scalar::Value;

const U: i64 = 65536;

fn center_organism(age: i64) -> Organism {
    Organism { age, x: 32 * U, z: 32 * U }
}

#[test]
fn default_parameters() {
    let p = GrowthParams::default();
    assert_eq!(p.max_age, 60 * U);
    assert_eq!(p.min_propagation_age, 2 * U);
    assert_eq!(p.spawn_probability, 655);
    assert_eq!(p.occupancy_threshold, U / 2);
    assert_eq!(p.spawn_radius, U);
    assert_eq!(p.footprint_radius, U / 8);
    assert_eq!(p.max_visual_size, U);
    assert_eq!(p.embed_depth, 6554);
}

#[test]
fn visual_scale_caps_at_max_size() {
    let p = GrowthParams::default();
    assert_eq!(visual_scale(100, &p), 100);
    assert_eq!(visual_scale(U, &p), U);
    assert_eq!(visual_scale(U + 1, &p), U);
    assert_eq!(visual_scale(50 * U, &p), U);
}

#[test]
fn trial_passes_exactly_below_the_probability() {
    let p = GrowthParams::default();
    assert!(trial_passes(0, &p));
    assert!(trial_passes(654, &p));
    assert!(!trial_passes(655, &p));
    assert!(!trial_passes(65535, &p));
    let mut never = GrowthParams::default();
    never.spawn_probability = 0;
    assert!(!trial_passes(0, &never));
    let mut always = GrowthParams::default();
    always.spawn_probability = U;
    assert!(always.spawn_probability == 65536 && trial_passes(65535, &always));
}

#[test]
fn no_propagation_attempts_before_threshold_age() {
    // An organism born at age zero, aged in tenth-of-a-second ticks: after
    // nineteen ticks (1.9 seconds, give or take the tick rounding) it is
    // still no candidate; one more tick crosses two seconds and it is.
    let p = GrowthParams::default();
    let mut organisms = vec![Organism { age: 0, x: 5 * U, z: 5 * U }];
    let mut density = Field::new(3);
    let tick = 6554;
    for _ in 0..19 {
        update_organisms(&mut organisms, &mut density, tick, &p);
    }
    assert_eq!(organisms.len(), 1);
    assert!(organisms[0].age < p.min_propagation_age);
    assert!(!propagation_candidate(organisms[0].age, &p));
    update_organisms(&mut organisms, &mut density, tick, &p);
    assert!(organisms[0].age >= p.min_propagation_age);
    assert!(propagation_candidate(organisms[0].age, &p));
}

#[test]
fn young_organisms_never_spawn() {
    let p = GrowthParams::default();
    let mut organisms: Vec<Organism> =
        (0..50).map(|i| Organism { age: 0, x: (10 + i) * U / 2, z: 20 * U }).collect();
    let mut density = Field::new(3);
    let height = Field::new(3);
    let mut rng = rand::rngs::StdRng::seed_from_u64(7);
    let spawned = propagate_organisms(&mut organisms, &mut density, &height, &mut rng, &p);
    assert!(spawned.is_empty());
    assert_eq!(organisms.len(), 50);
}

#[test]
fn aging_and_death_release_the_footprint() {
    // Birth adds a kernel, death subtracts the matching one: after a full
    // lifecycle the field is back to zero everywhere.
    let p = GrowthParams::default();
    let mut density = Field::new(3);
    let pos = 32 * U;
    density.add_kernel(pos, pos, p.footprint_radius, U);
    assert!(Value::Finite(0).lt(density.get_nearest(pos, pos)));
    let mut organisms = vec![Organism { age: p.max_age, x: pos, z: pos }];
    update_organisms(&mut organisms, &mut density, 1, &p);
    assert!(organisms.is_empty());
    let (nx, ny) = density.size();
    for y in 0..ny {
        for x in 0..nx {
            assert_eq!(density.get(x, y), Value::Finite(0));
        }
    }
}

#[test]
fn survivors_keep_order_and_age() {
    let p = GrowthParams::default();
    let mut organisms = vec![
        Organism { age: 100, x: U, z: U },
        Organism { age: p.max_age, x: 2 * U, z: U },
        Organism { age: 200, x: 3 * U, z: U },
    ];
    let mut density = Field::new(0);
    update_organisms(&mut organisms, &mut density, 50, &p);
    assert_eq!(
        organisms,
        vec![
            Organism { age: 150, x: U, z: U },
            Organism { age: 250, x: 3 * U, z: U },
        ]
    );
}

#[test]
fn spawn_attempt_succeeds_on_empty_ground() {
    let p = GrowthParams::default();
    let mut density = Field::new(3);
    let mut height = Field::new(3);
    let (nx, ny) = height.size();
    for y in 0..ny {
        for x in 0..nx {
            height.set(x, y, Value::Finite(U));
        }
    }
    let parent = center_organism(3 * U);
    let r = spawn_attempt(&parent, U / 2, -U / 2, &mut density, &height, &p);
    let (child, elevation) = r.expect("empty ground must accept the spawn");
    assert_eq!(child.age, 0);
    assert_eq!(child.x, 32 * U + U / 2);
    assert_eq!(child.z, 32 * U - U / 2);
    assert_eq!(elevation, Value::Finite(U - 6554));
    assert!(Value::Finite(0).lt(density.get_nearest(child.x, child.z)));
}

#[test]
fn spawn_attempt_rejects_occupied_ground() {
    let p = GrowthParams::default();
    let mut density = Field::new(3);
    let pos = 32 * U;
    density.add_kernel(pos, pos, U, U);
    let before = density.get_nearest(pos, pos);
    let height = Field::new(3);
    let parent = center_organism(3 * U);
    let r = spawn_attempt(&parent, 0, 0, &mut density, &height, &p);
    assert!(r.is_none());
    assert_eq!(density.get_nearest(pos, pos), before);
}

#[test]
fn spawn_attempt_rejects_positions_outside_the_world() {
    let p = GrowthParams::default();
    let mut density = Field::new(3);
    let height = Field::new(3);
    let edge = Organism { age: 3 * U, x: 0, z: 0 };
    assert!(spawn_attempt(&edge, -U / 2, 0, &mut density, &height, &p).is_none());
    assert!(spawn_attempt(&edge, 0, -U / 2, &mut density, &height, &p).is_none());
    // Exactly on the boundary is inside.
    assert!(spawn_attempt(&edge, 0, 0, &mut density, &height, &p).is_some());
}

#[test]
fn certain_trials_spawn_children_in_the_world() {
    let mut p = GrowthParams::default();
    p.spawn_probability = U;
    let mut organisms = vec![center_organism(3 * U)];
    let mut density = Field::new(3);
    let height = Field::new(3);
    let mut rng = rand::rngs::StdRng::seed_from_u64(42);
    let spawned = propagate_organisms(&mut organisms, &mut density, &height, &mut rng, &p);
    assert_eq!(spawned.len(), 1);
    assert_eq!(organisms.len(), 2);
    assert_eq!(organisms[0], center_organism(3 * U));
    let child = organisms[1];
    assert_eq!(child, spawned[0].0);
    assert_eq!(child.age, 0);
    assert!(child.x >= 0 && child.x <= 64 * U);
    assert!(child.z >= 0 && child.z <= 64 * U);
    let dx = child.x - 32 * U;
    let dz = child.z - 32 * U;
    assert!(dx * dx + dz * dz <= U * U);
}

#[test]
fn propagation_only_raises_the_density() {
    let mut p = GrowthParams::default();
    p.spawn_probability = U;
    let mut organisms: Vec<Organism> =
        (0..8).map(|i| Organism { age: 3 * U, x: (16 + 4 * i) * U, z: 32 * U }).collect();
    let mut density = Field::new(2);
    let height = Field::new(2);
    let mut rng = rand::rngs::StdRng::seed_from_u64(11);
    let (nx, ny) = density.size();
    let before: Vec<Value> = (0..ny)
        .flat_map(|y| (0..nx).map(move |x| (x, y)))
        .map(|(x, y)| density.get(x, y))
        .collect();
    propagate_organisms(&mut organisms, &mut density, &height, &mut rng, &p);
    for y in 0..ny {
        for x in 0..nx {
            assert!(!density.get(x, y).lt(before[y * nx + x]));
        }
    }
}

#[test]
fn sample_in_disk_stays_in_disk() {
    let mut rng = rand::rngs::StdRng::seed_from_u64(3);
    for _ in 0..100 {
        if let Some((dx, dz)) = sample_in_disk(&mut rng, 5 * U) {
            assert!(dx * dx + dz * dz <= 25 * U * U);
        } else {
            panic!("a hundred draws in a row outside the disk");
        }
    }
}
