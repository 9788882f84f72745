use snowglobe::collision::{find_collisions, solve_collision};
use snowglobe::fixed::SCALE;
use snowglobe::particle::{Vec2, VerletObject};
use snowglobe::solver::Solver;

fn particle_at(x: i64, y: i64, radius: i64) -> VerletObject {
    VerletObject::new(
        Vec2::new(x, y),
        Vec2::new(x, y),
        Vec2::new(0, 0),
        radius,
        (255, 255, 255),
    )
}

#[test]
fn free_fall_matches_discrete_half_g_t_squared() {
    // One particle at rest under gravity of one world unit per second
    // squared, one second of simulated time in four sub-steps.  The
    // per-sub-step kick is ((g * dt / SCALE) * dt / SCALE) = 4096, and the
    // accumulated fall is kick times the fourth triangular number, 10.
    let mut solver = Solver::new(Vec2::new(0, SCALE), 65536000, 65536000, 4, 0, 0);
    let mut particles = vec![particle_at(655360, 655360, 65536)];
    solver.update(&mut particles, SCALE, 1000);
    assert_eq!(particles[0].position_current.x, 655360);
    assert_eq!(particles[0].position_current.y, 655360 + 4096 * 10);
    // The derived velocity after four sub-steps is four kicks.
    assert_eq!(particles[0].position_old.y, 655360 + 4096 * 10 - 4 * 4096);
    assert_eq!(particles[0].position_old.x, 655360);
    // The accumulator is clear at the end of the frame.
    assert_eq!(particles[0].acceleration, Vec2::new(0, 0));
}

#[test]
fn exact_touch_produces_no_correction() {
    // Centers three-four-five apart: distance exactly 500, radius sum 500.
    let mut a = particle_at(0, 0, 250);
    let mut b = particle_at(300, 400, 250);
    solve_collision(&mut a, &mut b);
    assert_eq!(a.position_current, Vec2::new(0, 0));
    assert_eq!(b.position_current, Vec2::new(300, 400));
}

#[test]
fn symmetric_overlap_correction_separates_to_radius_sum() {
    // Equal radii 100, centers 160 apart on one axis: penetration 40, each
    // particle moves 20, ending exactly 200 apart.
    let mut a = particle_at(160, 0, 100);
    let mut b = particle_at(0, 0, 100);
    solve_collision(&mut a, &mut b);
    assert_eq!(a.position_current, Vec2::new(180, 0));
    assert_eq!(b.position_current, Vec2::new(-20, 0));
    assert_eq!(
        a.position_current.x - b.position_current.x,
        200
    );
    // Old positions are untouched by the narrow phase.
    assert_eq!(a.position_old, Vec2::new(160, 0));
    assert_eq!(b.position_old, Vec2::new(0, 0));
}

#[test]
fn symmetric_overlap_correction_works_vertically() {
    let mut a = particle_at(0, 0, 100);
    let mut b = particle_at(0, 160, 100);
    solve_collision(&mut a, &mut b);
    assert_eq!(a.position_current, Vec2::new(0, -20));
    assert_eq!(b.position_current, Vec2::new(0, 180));
}

#[test]
fn oblique_overlap_correction_is_exact_on_a_pythagorean_axis() {
    // Centers 500 apart along a 3-4-5 direction, radius sum 800: the unit
    // normal is exact, each center moves 150 sub-units along it, and the
    // pair ends exactly 800 apart.
    let mut a = particle_at(0, 0, 400);
    let mut b = particle_at(300, 400, 400);
    solve_collision(&mut a, &mut b);
    assert_eq!(a.position_current, Vec2::new(-90, -120));
    assert_eq!(b.position_current, Vec2::new(390, 520));
    let dx = b.position_current.x - a.position_current.x;
    let dy = b.position_current.y - a.position_current.y;
    assert_eq!(dx * dx + dy * dy, 800 * 800);
}

#[test]
fn coincident_centers_are_left_in_place() {
    let mut a = particle_at(50, 50, 100);
    let mut b = particle_at(50, 50, 100);
    solve_collision(&mut a, &mut b);
    assert_eq!(a.position_current, Vec2::new(50, 50));
    assert_eq!(b.position_current, Vec2::new(50, 50));
}

#[test]
fn wall_reflection_clamps_and_scales_velocity() {
    // A particle of radius 10 driven to x = 995 in a domain of width 1000:
    // clamped to 990, and the derived velocity of 10 comes out as -3
    // (negated, scaled by three tenths, rounded toward zero).
    let solver = Solver::new(Vec2::new(0, 0), 1000, 1000, 1, 0, 0);
    let mut particles = vec![VerletObject::new(
        Vec2::new(995, 500),
        Vec2::new(985, 500),
        Vec2::new(0, 0),
        10,
        (255, 255, 255),
    )];
    solver.apply_constraint(&mut particles);
    assert_eq!(particles[0].position_current, Vec2::new(990, 500));
    // position_old = position - adjusted velocity = 990 - (-3).
    assert_eq!(particles[0].position_old, Vec2::new(993, 500));
}

#[test]
fn lower_wall_reflection_is_symmetric() {
    let solver = Solver::new(Vec2::new(0, 0), 1000, 1000, 1, 0, 0);
    let mut particles = vec![VerletObject::new(
        Vec2::new(500, 5),
        Vec2::new(500, 15),
        Vec2::new(0, 0),
        10,
        (255, 255, 255),
    )];
    solver.apply_constraint(&mut particles);
    assert_eq!(particles[0].position_current, Vec2::new(500, 10));
    // Velocity was -10, reflected to 3: position_old = 10 - 3 = 7.
    assert_eq!(particles[0].position_old, Vec2::new(500, 7));
}

#[test]
fn grid_produces_no_false_positives() {
    // Three particles whose radii overlap pairwise (distance 500 or more,
    // radius sum 600) but which sit in mutually non-adjacent cells of a
    // 100-unit grid: the broad phase never tests them, so nothing moves.
    let mut particles = vec![
        particle_at(50, 50, 300),
        particle_at(550, 50, 300),
        particle_at(50, 550, 300),
    ];
    find_collisions(&mut particles, 100);
    assert_eq!(particles[0].position_current, Vec2::new(50, 50));
    assert_eq!(particles[1].position_current, Vec2::new(550, 50));
    assert_eq!(particles[2].position_current, Vec2::new(50, 550));
}

#[test]
fn grid_resolves_a_same_cell_overlap() {
    let mut particles = vec![particle_at(50, 50, 60), particle_at(60, 50, 60)];
    find_collisions(&mut particles, 100);
    // Penetration 110, each particle moves 55 along the axis.
    assert_eq!(particles[0].position_current, Vec2::new(-5, 50));
    assert_eq!(particles[1].position_current, Vec2::new(115, 50));
}

#[test]
fn collision_pass_is_a_pure_function_of_the_state() {
    // Two identical states run through the broad phase give identical
    // results: the grid and the order of pair resolution are deterministic.
    let mk = || {
        vec![
            particle_at(50, 50, 60),
            particle_at(60, 50, 60),
            particle_at(250, 250, 30),
            particle_at(-40, 130, 80),
        ]
    };
    let mut first = mk();
    let mut second = mk();
    find_collisions(&mut first, 100);
    find_collisions(&mut second, 100);
    assert_eq!(first, second);
}

#[test]
fn update_keeps_particles_inside_the_domain() {
    // A particle sliding fast toward the right wall stays confined to
    // [radius, width - radius] after a frame.
    let mut solver = Solver::new(Vec2::new(0, 0), 1000, 1000, 2, 0, 0);
    let mut particles = vec![VerletObject::new(
        Vec2::new(980, 500),
        Vec2::new(950, 500),
        Vec2::new(0, 0),
        10,
        (255, 255, 255),
    )];
    solver.update(&mut particles, 0, 100);
    assert!(10 <= particles[0].position_current.x && particles[0].position_current.x <= 990);
    assert!(10 <= particles[0].position_current.y && particles[0].position_current.y <= 990);
}

#[test]
fn zero_timestep_changes_no_position() {
    let mut solver = Solver::new(Vec2::new(0, 2 * SCALE), 10000, 10000, 5, 0, 0);
    let mut particles = vec![particle_at(200, 200, 100), particle_at(1000, 1000, 100)];
    solver.update(&mut particles, 0, 50);
    assert_eq!(particles[0].position_current, Vec2::new(200, 200));
    assert_eq!(particles[0].position_old, Vec2::new(200, 200));
    assert_eq!(particles[1].position_current, Vec2::new(1000, 1000));
    assert_eq!(particles[1].position_old, Vec2::new(1000, 1000));
}

#[test]
fn uniform_displacement_shifts_current_only() {
    let mut solver = Solver::new(Vec2::new(0, 0), 10000, 10000, 1, 0, 0);
    let mut particles = vec![particle_at(100, 200, 10), particle_at(-300, 4000, 20)];
    solver.apply_arbituary_force(&mut particles, Vec2::new(7, -3));
    assert_eq!(particles[0].position_current, Vec2::new(107, 197));
    assert_eq!(particles[0].position_old, Vec2::new(100, 200));
    assert_eq!(particles[1].position_current, Vec2::new(-293, 3997));
    assert_eq!(particles[1].position_old, Vec2::new(-300, 4000));
}

#[test]
fn radial_force_repels_by_one_world_unit() {
    let mut solver = Solver::new(Vec2::new(0, 0), 10000, 10000, 1, 0, 0);
    let mut particles = vec![particle_at(300, 0, 10)];
    solver.apply_point_arbituary_force(&mut particles, Vec2::new(0, 0), 500);
    assert_eq!(particles[0].position_current, Vec2::new(300 + SCALE, 0));
    assert_eq!(particles[0].position_old, Vec2::new(300, 0));
}

#[test]
fn radial_force_attracts_with_negative_falloff() {
    let mut solver = Solver::new(Vec2::new(0, 0), 10000, 10000, 1, 0, 0);
    let mut particles = vec![particle_at(300, 0, 10)];
    solver.apply_point_arbituary_force(&mut particles, Vec2::new(0, 0), -500);
    assert_eq!(particles[0].position_current, Vec2::new(300 - SCALE, 0));
}

#[test]
fn radial_force_skips_particle_at_center() {
    let mut solver = Solver::new(Vec2::new(0, 0), 10000, 10000, 1, 0, 0);
    let mut particles = vec![particle_at(42, 17, 10)];
    solver.apply_point_arbituary_force(&mut particles, Vec2::new(42, 17), 500);
    assert_eq!(particles[0].position_current, Vec2::new(42, 17));
}

#[test]
fn radial_force_ignores_particles_outside_falloff() {
    let mut solver = Solver::new(Vec2::new(0, 0), 10000, 10000, 1, 0, 0);
    let mut particles = vec![particle_at(500, 0, 10)];
    solver.apply_point_arbituary_force(&mut particles, Vec2::new(0, 0), 500);
    assert_eq!(particles[0].position_current, Vec2::new(500, 0));
}

#[test]
fn accelerate_accumulates() {
    let mut p = particle_at(0, 0, 10);
    p.accelerate(Vec2::new(3, -4));
    p.accelerate(Vec2::new(1, 1));
    assert_eq!(p.acceleration, Vec2::new(4, -3));
    assert_eq!(p.position_current, Vec2::new(0, 0));
}

#[test]
fn update_position_advances_by_velocity_and_kick() {
    // Velocity (100, 100); acceleration of one world unit per second
    // squared on x with a one-second step contributes exactly one world
    // unit of displacement.
    let mut p = VerletObject::new(
        Vec2::new(1000, 2000),
        Vec2::new(900, 1900),
        Vec2::new(SCALE, 0),
        10,
        (255, 255, 255),
    );
    p.update_position(SCALE);
    assert_eq!(p.position_current, Vec2::new(1000 + 100 + SCALE, 2100));
    assert_eq!(p.position_old, Vec2::new(1000, 2000));
    assert_eq!(p.acceleration, Vec2::new(0, 0));
    // Speed 141 sub-units is far below one world unit: the color stays at
    // the rest hue, blue.
    assert_eq!(p.col, (0, 0, 255));
}

#[test]
fn color_turns_red_at_high_speed() {
    // Three world units per step and beyond map to hue zero: red.
    let mut p = VerletObject::new(
        Vec2::new(3 * SCALE, 0),
        Vec2::new(0, 0),
        Vec2::new(0, 0),
        10,
        (255, 255, 255),
    );
    p.update_position(0);
    assert_eq!(p.col, (255, 0, 0));
}

#[test]
fn solver_new_stores_configuration() {
    let s = Solver::new(Vec2::new(1, 2), 800, 600, 8, 3, 4);
    assert_eq!(s.gravity, Vec2::new(1, 2));
    assert_eq!(s.width, 800);
    assert_eq!(s.height, 600);
    assert_eq!(s.substeps, 8);
    assert_eq!(s.cohesion, 3);
    assert_eq!(s.repulsion, 4);
}
