use sparse_life::LifeWorld;

fn positions() -> [[i32; 2]; 8] {
    [[0, 1], [1, 0], [1, 1], [0, -1], [-1, 0], [-1, -1], [-1, 1], [1, -1]]
}

#[test]
fn raise_raises_cells() {
    for [x, y] in positions() {
        let mut world = LifeWorld::new();
        world.raise(x, y);
        assert_eq!(world.alive(x, y), true);
    }
}

#[test]
fn lower_lowers_cells() {
    for [x, y] in positions() {
        let mut world = LifeWorld::new();
        world.lower(x, y);
        assert_eq!(world.alive(x, y), false);
    }
}

#[test]
fn toggle_raises_and_lowers_cells() {
    for [x, y] in positions() {
        let mut world = LifeWorld::new();
        world.toggle(x, y);
        assert_eq!(world.alive(x, y), true);
        world.toggle(x, y);
        assert_eq!(world.alive(x, y), false);
    }
}

#[test]
fn raise_fills_surrounding_cells() {
    for [x, y] in positions() {
        let mut world = LifeWorld::new();
        world.raise(x, y);
        assert_eq!(world.get(x, y), Some(true));
        assert_eq!(world.get(x + 1, y), Some(false));
        assert_eq!(world.get(x - 1, y), Some(false));
        assert_eq!(world.get(x, y + 1), Some(false));
        assert_eq!(world.get(x, y - 1), Some(false));
        assert_eq!(world.get(x + 1, y + 1), Some(false));
        assert_eq!(world.get(x + 1, y - 1), Some(false));
        assert_eq!(world.get(x - 1, y - 1), Some(false));
        assert_eq!(world.get(x - 1, y + 1), Some(false));
        assert_eq!(world.get(x, y + 2), None);
        assert_eq!(world.get(x, y - 2), None);
        assert_eq!(world.get(x + 2, y), None);
        assert_eq!(world.get(x - 2, y), None);
    }
}

#[test]
fn lower_clears_cells() {
    for [x, y] in positions() {
        let mut world = LifeWorld::new();
        world.raise(x, y);
        world.lower(x, y);
        assert_eq!(world.get(x, y), None);
        assert_eq!(world.get(x + 1, y), None);
        assert_eq!(world.get(x - 1, y), None);
        assert_eq!(world.get(x, y + 1), None);
        assert_eq!(world.get(x, y - 1), None);
        assert_eq!(world.get(x + 1, y + 1), None);
        assert_eq!(world.get(x + 1, y - 1), None);
        assert_eq!(world.get(x - 1, y - 1), None);
        assert_eq!(world.get(x - 1, y + 1), None);
        assert_eq!(world.get(x, y + 2), None);
        assert_eq!(world.get(x, y - 2), None);
        assert_eq!(world.get(x + 2, y), None);
        assert_eq!(world.get(x - 2, y), None);
    }
}

#[test]
fn toggle_clears_cells() {
    for [x, y] in positions() {
        let mut world = LifeWorld::new();
        world.toggle(x, y);
        world.toggle(x, y);
        assert_eq!(world.get(x, y), None);
        assert_eq!(world.get(x + 1, y), None);
        assert_eq!(world.get(x - 1, y), None);
        assert_eq!(world.get(x, y + 1), None);
        assert_eq!(world.get(x, y - 1), None);
        assert_eq!(world.get(x + 1, y + 1), None);
        assert_eq!(world.get(x + 1, y - 1), None);
        assert_eq!(world.get(x - 1, y - 1), None);
        assert_eq!(world.get(x - 1, y + 1), None);
        assert_eq!(world.get(x, y + 2), None);
        assert_eq!(world.get(x, y - 2), None);
        assert_eq!(world.get(x + 2, y), None);
        assert_eq!(world.get(x - 2, y), None);
    }
}

#[test]
fn toggle_clears_adjacent_cells() {
    for [x, y] in positions() {
        for [dx, dy] in [[0, 1], [1, 1], [1, 0]] {
            let mut world = LifeWorld::new();
            world.toggle(x, y);
            world.toggle(x + dx, y + dy);
            world.toggle(x, y);
            world.toggle(x + dx, y + dy);
            assert_eq!(world.get(x + 1, y), None);
            assert_eq!(world.get(x - 1, y), None);
            assert_eq!(world.get(x, y + 1), None);
            assert_eq!(world.get(x, y - 1), None);
            assert_eq!(world.get(x + 1, y + 1), None);
            assert_eq!(world.get(x + 1, y - 1), None);
            assert_eq!(world.get(x - 1, y - 1), None);
            assert_eq!(world.get(x - 1, y + 1), None);
            assert_eq!(world.get(x + 2, y), None);
            assert_eq!(world.get(x + 2, y + 1), None);
            assert_eq!(world.get(x + 2, y + 2), None);
            assert_eq!(world.get(x + 1, y + 2), None);
            assert_eq!(world.get(x, y + 2), None);
        }
    }
}

#[test]
fn compute_counts_after_raising() {
    for expected in [1, 2, 5, 10, 25] {
        let mut world = LifeWorld::new();
        for i in 0..expected {
            world.raise(i, 0);
        }
        assert_eq!(world.num_alive(), expected as usize);
    }
}

#[test]
fn increment_generations_on_evolve() {
    for expected in [1, 2, 5, 10, 25] {
        let mut world = LifeWorld::new();
        for _ in 0..expected {
            world.evolve();
        }
        assert_eq!(world.generations, expected);
    }
}

#[test]
fn live_cell_with_n_living_neighbors() {
    for n in 0..=8 {
        let mut world = LifeWorld::new();
        world.raise(0, 0);
        for [x, y] in &positions()[0..n] {
            world.raise(*x, *y);
        }
        world.evolve();
        match n {
            2 | 3 => assert_eq!(world.alive(0, 0), true),
            _ => assert_eq!(world.alive(0, 0), false),
        }
    }
}

#[test]
fn dead_cell_with_n_living_neighbors() {
    for n in 0..=8 {
        let mut world = LifeWorld::new();
        for [x, y] in &positions()[0..n] {
            world.raise(*x, *y);
        }
        if n == 0 {
            world.lower(0, 0);
        }
        world.evolve();
        match n {
            3 => assert_eq!(world.alive(0, 0), true),
            _ => assert_eq!(world.alive(0, 0), false),
        }
    }
}

#[test]
fn empty_world_stays_empty_across_generations() {
    let mut world = LifeWorld::new();
    for n in 1..=25usize {
        world.evolve();
        assert_eq!(world.num_alive(), 0);
        assert_eq!(world.generations, n);
    }
}

#[test]
fn get_repeats_the_same_answer() {
    let mut world = LifeWorld::new();
    world.raise(3, -4);
    assert_eq!(world.get(3, -4), world.get(3, -4));
    assert_eq!(world.get(4, -4), world.get(4, -4));
    assert_eq!(world.get(9, 9), world.get(9, 9));
}

#[test]
fn raise_is_idempotent_per_coordinate() {
    let mut once = LifeWorld::new();
    once.raise(2, 2);
    let mut twice = LifeWorld::new();
    twice.raise(2, 2);
    twice.raise(2, 2);
    assert_eq!(once.num_alive(), twice.num_alive());
    assert_eq!(once.get(2, 2), twice.get(2, 2));
    assert_eq!(once.get(3, 2), twice.get(3, 2));
}

#[test]
fn raise_order_does_not_matter() {
    let cells = [[0, 0], [1, 0], [5, -3], [-2, 2]];
    let mut forward = LifeWorld::new();
    for [x, y] in cells {
        forward.raise(x, y);
    }
    let mut backward = LifeWorld::new();
    for [x, y] in cells.iter().rev() {
        backward.raise(*x, *y);
    }
    assert_eq!(forward.num_alive(), backward.num_alive());
    for x in -4..8 {
        for y in -6..5 {
            assert_eq!(forward.get(x, y), backward.get(x, y));
        }
    }
}

#[test]
fn even_toggles_clear_the_world() {
    let mut world = LifeWorld::new();
    let sequence = [
        (0, 0),
        (1, 1),
        (-2, 3),
        (1, 1),
        (0, 0),
        (5, 5),
        (-2, 3),
        (5, 5),
    ];
    for (x, y) in sequence {
        world.toggle(x, y);
    }
    assert_eq!(world.num_alive(), 0);
    for x in -4..8 {
        for y in -2..8 {
            assert_eq!(world.get(x, y), None);
        }
    }
}

#[test]
fn seeds_at_least_one_cell_for_positive_random_counts() {
    for n in [1usize, 2, 7, 50] {
        let world = sparse_life::LifeWorld::from(&sparse_life::LifePattern::Random(n));
        let alive = world.num_alive();
        assert!(alive >= 1);
        assert!(alive <= n);
    }
}
