use std::cell::Cell;
use std::cell::RefCell;

use grid::Grid;
use grid::Vector;

#[test]
fn new_fills_every_cell() {
    let g: Grid<u8> = Grid::new(8, 10, 3);
    assert_eq!(g.width(), 8);
    assert_eq!(g.height(), 10);
    assert_eq!(g.width() * g.height(), 80);
    for y in 0..10 {
        for x in 0..8 {
            assert_eq!(g.get(Vector::new(x, y)), Some(&3));
        }
    }
}

#[test]
fn default_fills_with_default_values() {
    let g: Grid<u8> = Grid::default(9, 3);
    assert_eq!(g.width(), 9);
    assert_eq!(g.height(), 3);
    assert_eq!(g.get(Vector::new(5, 1)), Some(&0));
    assert_eq!(g.get(Vector::new(6, 2)), Some(&0));
}

#[test]
fn from_simple_fn_calls_generator_per_cell() {
    let g: Grid<u8> = Grid::from_simple_fn(8, 10, || 2);
    assert_eq!(g.get(Vector::new(5, 3)), Some(&2));
    assert_eq!(g.get(Vector::new(1, 8)), Some(&2));

    let counter: Cell<i64> = Cell::new(0);
    let counted: Grid<i64> = Grid::from_simple_fn(4, 4, || {
        counter.set(counter.get() + 1);
        counter.get()
    });
    assert_eq!(counted.get(Vector::new(0, 0)), Some(&1));
    assert_eq!(counted.get(Vector::new(3, 3)), Some(&16));
}

#[test]
fn from_fn_receives_each_position() {
    let g: Grid<i64> = Grid::from_fn(8, 10, |pos: Vector| pos.x + pos.y);
    assert_eq!(g.get(Vector::new(5, 3)), Some(&8));
    assert_eq!(g.get(Vector::new(7, 9)), Some(&16));
    assert_eq!(g.get(Vector::new(0, 0)), Some(&0));
}

#[test]
fn from_fn_visits_positions_in_row_major_order() {
    let seen: RefCell<Vec<Vector>> = RefCell::new(Vec::new());
    let _g: Grid<u8> = Grid::from_fn(3, 2, |pos: Vector| {
        seen.borrow_mut().push(pos);
        0
    });
    let seen = seen.into_inner();
    let expected = vec![
        Vector::new(0, 0),
        Vector::new(1, 0),
        Vector::new(2, 0),
        Vector::new(0, 1),
        Vector::new(1, 1),
        Vector::new(2, 1),
    ];
    assert_eq!(seen, expected);
}

#[test]
fn from_iter_lays_values_out_row_major() {
    let g: Grid<u8> = Grid::from_iter(2, 3, vec![1, 2, 3, 4, 5, 6]);
    assert_eq!(g.get(Vector::new(1, 0)), Some(&2));
    assert_eq!(g.get(Vector::new(0, 2)), Some(&5));
    assert_eq!(g.get(Vector::new(1, 2)), Some(&6));
}

#[test]
fn from_iter_ignores_trailing_extra_values() {
    let g: Grid<u8> = Grid::from_iter(2, 2, vec![1, 2, 3, 4, 9, 9, 9]);
    assert_eq!(g.width(), 2);
    assert_eq!(g.height(), 2);
    assert_eq!(g.into_values(), vec![1, 2, 3, 4]);
}

#[test]
fn from_nested_iter_takes_one_row_per_inner_vector() {
    let g: Grid<u8> = Grid::from_nested_iter(vec![vec![1, 2, 3], vec![4, 5, 6]]);
    assert_eq!(g.width(), 3);
    assert_eq!(g.height(), 2);
    assert_eq!(g.get(Vector::new(2, 1)), Some(&6));
    assert_eq!(g.get(Vector::new(0, 0)), Some(&1));
    assert_eq!(g.get(Vector::new(1, 1)), Some(&5));
}

#[test]
fn from_nested_iter_of_zero_rows_is_degenerate() {
    let rows: Vec<Vec<u8>> = Vec::new();
    let mut g: Grid<u8> = Grid::from_nested_iter(rows);
    assert_eq!(g.width(), 0);
    assert_eq!(g.height(), 0);
    assert!(!g.in_bounds(Vector::new(0, 0)));
    assert_eq!(g.get(Vector::new(0, 0)), None);
    assert_eq!(g.set(Vector::new(0, 0), 1), None);
}

#[test]
fn dim_returns_both_dimensions() {
    let g: Grid<u8> = Grid::new(8, 10, 11);
    assert_eq!(g.dim(), Vector::new(8, 10));
    assert_eq!(g.width(), 8);
    assert_eq!(g.height(), 10);
}

#[test]
fn in_bounds_accepts_exactly_the_grid_positions() {
    let g: Grid<u8> = Grid::new(15, 14, 11);
    assert!(g.in_bounds(Vector::new(0, 0)));
    assert!(g.in_bounds(Vector::new(10, 4)));
    assert!(g.in_bounds(Vector::new(14, 13)));
    assert!(!g.in_bounds(Vector::new(15, 2)));
    assert!(!g.in_bounds(Vector::new(3, 17)));
    assert!(!g.in_bounds(Vector::new(-1, 5)));
    assert!(!g.in_bounds(Vector::new(-15, -14)));
}

#[test]
fn get_reads_cells_and_rejects_out_of_bounds() {
    let mut g: Grid<u8> = Grid::new(8, 10, 3);
    *g.index_mut(Vector::new(1, 1)) = 4;
    assert_eq!(g.get(Vector::new(5, 2)), Some(&3));
    assert_eq!(g.get(Vector::new(1, 1)), Some(&4));
    assert_eq!(g.get(Vector::new(8, 6)), None);
    assert_eq!(g.get(Vector::new(4, 10)), None);
    assert_eq!(g.get(Vector::new(-2, 3)), None);
}

#[test]
fn get_mut_writes_through_and_rejects_out_of_bounds() {
    let mut g: Grid<u8> = Grid::new(8, 10, 4);
    if let Some(cell) = g.get_mut(Vector::new(5, 3)) {
        *cell = 2;
    } else {
        panic!("position expected in bounds");
    }
    assert_eq!(g.get_mut(Vector::new(5, 3)), Some(&mut 2));
    assert_eq!(g.get_mut(Vector::new(0, 0)), Some(&mut 4));
    assert_eq!(g.get_mut(Vector::new(1, 10)), None);
    assert_eq!(g.get_mut(Vector::new(9, 7)), None);
    assert_eq!(g.get_mut(Vector::new(4, -1)), None);
}

#[test]
fn set_round_trips_with_get() {
    let mut g: Grid<u8> = Grid::new(8, 10, 5);
    assert_eq!(g.set(Vector::new(2, 3), 7), Some(5));
    assert_eq!(g.get(Vector::new(2, 3)), Some(&7));
    assert_eq!(g.set(Vector::new(0, 0), 9), Some(5));
    assert_eq!(g.get(Vector::new(0, 0)), Some(&9));
}

#[test]
fn set_out_of_bounds_returns_none_and_changes_nothing() {
    let mut g: Grid<u8> = Grid::from_iter(2, 3, vec![1, 2, 3, 4, 5, 6]);
    let before = g.clone();
    assert_eq!(g.set(Vector::new(9, 12), 1), None);
    assert_eq!(g.set(Vector::new(-4, -7), 3), None);
    assert_eq!(g.set(Vector::new(2, 0), 8), None);
    assert_eq!(g.set(Vector::new(0, 3), 8), None);
    assert!(g == before);
    for y in 0..3 {
        for x in 0..2 {
            let expected = (1 + x + 2 * y) as u8;
            assert_eq!(g.get(Vector::new(x, y)), Some(&expected));
        }
    }
}

#[test]
fn index_reads_cells_the_caller_knows_are_in_bounds() {
    let mut g: Grid<u8> = Grid::new(8, 10, 3);
    *g.index_mut(Vector::new(1, 0)) = 1;
    *g.index_mut(Vector::new(3, 5)) = 2;
    assert_eq!(*g.index(Vector::new(3, 5)), 2);
    assert_eq!(*g.index(Vector::new(1, 0)), 1);
    assert_eq!(*g.index(Vector::new(6, 4)), 3);
}

#[test]
fn map_preserves_dimensions() {
    let a: Grid<u8> = Grid::new(15, 14, 11);
    let b = a.map(|value: &u8| *value + 2);
    assert_eq!(b.width(), a.width());
    assert_eq!(b.height(), a.height());
    assert_eq!(b.get(Vector::new(2, 3)), Some(&13));

    let c = b.map(|value: &u8| format!("{}", value));
    assert_eq!(c.width(), a.width());
    assert_eq!(c.height(), a.height());
    assert_eq!(c.get(Vector::new(2, 3)).map(String::as_str), Some("13"));
}

#[test]
fn pos_map_composes_additively() {
    let a: Grid<i64> = Grid::new(5, 6, 3);
    let b = a.pos_map(|pos: Vector, value: &i64| *value + pos.x);
    assert_eq!(b.get(Vector::new(1, 4)), Some(&4));
    assert_eq!(b.get(Vector::new(3, 0)), Some(&6));
    assert_eq!(b.width(), 5);
    assert_eq!(b.height(), 6);

    let c = b.pos_map(|pos: Vector, value: &i64| *value + pos.y);
    assert_eq!(c.get(Vector::new(1, 4)), Some(&8));
    assert_eq!(c.width(), 5);
    assert_eq!(c.height(), 6);
}

#[test]
fn map_into_consumes_the_source() {
    let a: Grid<u8> = Grid::new(15, 14, 11);
    let b = a.map_into(|value: u8| value + 2);
    assert_eq!(b.width(), 15);
    assert_eq!(b.height(), 14);
    assert_eq!(b.get(Vector::new(2, 3)), Some(&13));
}

#[test]
fn pos_map_into_consumes_the_source() {
    let a: Grid<i64> = Grid::new(5, 6, 3);
    let b = a.pos_map_into(|pos: Vector, value: i64| value + pos.x);
    assert_eq!(b.width(), 5);
    assert_eq!(b.height(), 6);
    assert_eq!(b.get(Vector::new(1, 4)), Some(&4));
    assert_eq!(b.get(Vector::new(3, 0)), Some(&6));
}

#[test]
fn map_visits_cells_in_row_major_order() {
    let g: Grid<u8> = Grid::from_iter(3, 2, vec![10, 11, 12, 13, 14, 15]);
    let seen: RefCell<Vec<u8>> = RefCell::new(Vec::new());
    let _same = g.map(|value: &u8| {
        seen.borrow_mut().push(*value);
        *value
    });
    let seen = seen.into_inner();
    assert_eq!(seen, vec![10, 11, 12, 13, 14, 15]);
}

#[test]
fn positions_lists_every_position_once_in_row_major_order() {
    let g: Grid<u8> = Grid::new(3, 2, 0);
    let ps = g.positions();
    assert_eq!(ps.len(), 6);
    let expected = vec![
        Vector::new(0, 0),
        Vector::new(1, 0),
        Vector::new(2, 0),
        Vector::new(0, 1),
        Vector::new(1, 1),
        Vector::new(2, 1),
    ];
    assert_eq!(ps, expected);
    for i in 0..ps.len() {
        for j in (i + 1)..ps.len() {
            assert_ne!(ps[i], ps[j]);
        }
    }
}

#[test]
fn traversals_match_the_position_generator_order() {
    let generated: RefCell<Vec<Vector>> = RefCell::new(Vec::new());
    let g: Grid<i64> = Grid::from_fn(4, 3, |pos: Vector| {
        generated.borrow_mut().push(pos);
        10 * pos.y + pos.x
    });
    let generated = generated.into_inner();
    assert_eq!(g.positions(), generated);

    let pairs = g.position_values();
    assert_eq!(pairs.len(), 12);
    for (i, (pos, value)) in pairs.iter().enumerate() {
        assert_eq!(*pos, generated[i]);
        assert_eq!(**value, 10 * pos.y + pos.x);
    }
}

#[test]
fn values_yields_cells_in_row_major_order() {
    let g: Grid<u8> = Grid::from_iter(2, 2, vec![7, 8, 9, 10]);
    let vs = g.values();
    assert_eq!(vs, vec![&7, &8, &9, &10]);
}

#[test]
fn into_values_yields_owned_cells_in_row_major_order() {
    let g: Grid<u8> = Grid::from_iter(2, 3, vec![1, 2, 3, 4, 5, 6]);
    assert_eq!(g.into_values(), vec![1, 2, 3, 4, 5, 6]);
}

#[test]
fn into_position_values_pairs_each_cell_with_its_position() {
    let g: Grid<i64> = Grid::from_fn(3, 2, |pos: Vector| pos.x - pos.y);
    let pairs = g.into_position_values();
    assert_eq!(pairs.len(), 6);
    let expected = vec![
        (Vector::new(0, 0), 0),
        (Vector::new(1, 0), 1),
        (Vector::new(2, 0), 2),
        (Vector::new(0, 1), -1),
        (Vector::new(1, 1), 0),
        (Vector::new(2, 1), 1),
    ];
    assert_eq!(pairs, expected);
}

#[test]
fn every_constructor_satisfies_the_bounds_characterisation() {
    let grids: Vec<Grid<i64>> = vec![
        Grid::new(4, 5, 7),
        Grid::default(4, 5),
        Grid::from_simple_fn(4, 5, || 1),
        Grid::from_fn(4, 5, |pos: Vector| pos.x),
        Grid::from_iter(4, 5, (0..20).collect()),
        Grid::from_nested_iter((0..5).map(|y| (0..4).map(|x| x + y).collect()).collect()),
    ];
    for g in grids {
        assert_eq!(g.width(), 4);
        assert_eq!(g.height(), 5);
        assert_eq!(g.width() * g.height(), 20);
        for y in -1..7 {
            for x in -1..6 {
                let expected = 0 <= x && x < 4 && 0 <= y && y < 5;
                assert_eq!(g.in_bounds(Vector::new(x, y)), expected);
                assert_eq!(g.get(Vector::new(x, y)).is_some(), expected);
            }
        }
    }
}
