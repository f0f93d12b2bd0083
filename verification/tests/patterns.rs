use sparse_life::arith::side_len;
use sparse_life::Camera;
use sparse_life::LifeCell;
use sparse_life::LifePattern;
use sparse_life::LifeWorld;

#[test]
fn creates_cell_records() {
    let live = LifeCell::new(true);
    assert_eq!(live.alive, true);
    assert_eq!(live.num_neighbors, 0);
    let dead = LifeCell::new(false);
    assert_eq!(dead.alive, false);
    assert_eq!(dead.num_neighbors, 0);
}

#[test]
fn creates_centered_camera() {
    let camera = Camera::new();
    assert_eq!(camera.x, 0);
    assert_eq!(camera.y, 0);
}

#[test]
fn seeds_named_patterns() {
    let blank = LifeWorld::from(&LifePattern::Blank);
    assert_eq!(blank.num_alive(), 0);
    assert_eq!(blank.generations, 0);

    let glider = LifeWorld::from(&LifePattern::Glider);
    assert_eq!(glider.num_alive(), 5);
    for (x, y) in [(0, 0), (1, 0), (2, 0), (2, 1), (1, 2)] {
        assert!(glider.alive(x, y));
    }

    let blinker = LifeWorld::from(&LifePattern::Blinker);
    assert_eq!(blinker.num_alive(), 3);
    for (x, y) in [(0, 0), (0, 1), (0, 2)] {
        assert!(blinker.alive(x, y));
    }

    let beacon = LifeWorld::from(&LifePattern::Beacon);
    assert_eq!(beacon.num_alive(), 8);
    for (x, y) in [(0, 0), (0, 1), (1, 0), (1, 1), (2, 2), (3, 2), (2, 3), (3, 3)] {
        assert!(beacon.alive(x, y));
    }
}

#[test]
fn seeds_random_cells_inside_the_square() {
    for n in [0usize, 1, 2, 10, 100, 1000] {
        let world = LifeWorld::from(&LifePattern::Random(n));
        let alive = world.num_alive();
        assert!(alive <= n);
        assert_eq!(world.generations, 0);
        let side = side_len(n);
        let mut seen = 0usize;
        for x in 0..side {
            for y in 0..side {
                if world.alive(x, y) {
                    seen += 1;
                }
            }
        }
        assert_eq!(seen, alive);
    }
}

#[test]
fn sizes_the_random_square_by_rounded_square_root() {
    assert_eq!(side_len(0), 1);
    assert_eq!(side_len(1), 1);
    assert_eq!(side_len(2), 1);
    assert_eq!(side_len(3), 2);
    assert_eq!(side_len(4), 2);
    assert_eq!(side_len(6), 2);
    assert_eq!(side_len(7), 3);
    assert_eq!(side_len(100), 10);
    assert_eq!(side_len(10000), 100);
    assert_eq!(side_len(usize::MAX), i32::MAX);
}

#[test]
fn blinker_returns_after_two_generations() {
    let mut world = LifeWorld::from(&LifePattern::Blinker);
    world.evolve();
    assert_eq!(world.num_alive(), 3);
    for (x, y) in [(-1, 1), (0, 1), (1, 1)] {
        assert!(world.alive(x, y));
    }
    world.evolve();
    assert_eq!(world.num_alive(), 3);
    for (x, y) in [(0, 0), (0, 1), (0, 2)] {
        assert!(world.alive(x, y));
    }
    assert_eq!(world.generations, 2);
}

#[test]
fn glider_translates_diagonally_after_four_generations() {
    let seed = [(0, 0), (1, 0), (2, 0), (2, 1), (1, 2)];
    let mut world = LifeWorld::from(&LifePattern::Glider);
    for _ in 0..4 {
        world.evolve();
    }
    assert_eq!(world.num_alive(), 5);
    for (x, y) in seed {
        assert!(world.alive(x + 1, y - 1));
    }
    assert_eq!(world.generations, 4);
}

#[test]
fn beacon_oscillates_with_period_two() {
    let mut world = LifeWorld::from(&LifePattern::Beacon);
    world.evolve();
    assert_eq!(world.num_alive(), 6);
    world.evolve();
    assert_eq!(world.num_alive(), 8);
    for (x, y) in [(0, 0), (0, 1), (1, 0), (1, 1), (2, 2), (3, 2), (2, 3), (3, 3)] {
        assert!(world.alive(x, y));
    }
}
