use clamms::board_generator::{example_board, CornerBoard, RiverBoard};
use clamms::routing::ClammsInt2D;

#[test]
fn test_corner_board() {
    let dim = (10usize, 10usize);
    let corner_board = CornerBoard {
        water_loc: ClammsInt2D { x: 0, y: 0 },
        food_loc: ClammsInt2D {
            x: i32::try_from(dim.0).unwrap() - 3,
            y: i32::try_from(dim.1).unwrap() - 3,
        },
        water_size: 2,
        food_size: 2,
        dim,
    };
    println!("{:?}", corner_board.generate());
}

#[test]
fn corner_board_squares() {
    let b = CornerBoard {
        water_loc: ClammsInt2D { x: 0, y: 1 },
        food_loc: ClammsInt2D { x: 6, y: 6 },
        water_size: 2,
        food_size: 2,
        dim: (10, 10),
    };
    let r = b.generate();
    assert_eq!(
        r.water,
        vec![ClammsInt2D { x: 0, y: 1 }, ClammsInt2D { x: 0, y: 2 }, ClammsInt2D { x: 1, y: 1 }, ClammsInt2D { x: 1, y: 2 }]
    );
    assert_eq!(
        r.food,
        vec![ClammsInt2D { x: 6, y: 6 }, ClammsInt2D { x: 6, y: 7 }, ClammsInt2D { x: 7, y: 6 }, ClammsInt2D { x: 7, y: 7 }]
    );
}

#[test]
fn test_river_board() {
    let river_board = RiverBoard {
        water_loc: ClammsInt2D { x: 10, y: 0 },
        food_loc: ClammsInt2D { x: 1, y: 1 },
        water_size: 2,
        food_size: 3,
        dim: (20, 12),
    };
    let r = river_board.generate();
    assert_eq!(r.food.len(), 2 * 3);
    assert_eq!(r.water.len(), 5 * 11);
    for (k, row) in r.water.chunks(5).enumerate() {
        for (i, cell) in row.iter().enumerate() {
            assert_eq!(cell.y, k as i32 + 1);
            assert_eq!(cell.x, row[0].x + i as i32);
        }
        if k > 0 {
            let prev = r.water[(k - 1) * 5].x;
            assert!((row[0].x - prev).abs() <= 1);
        }
    }
    assert_eq!(river_board.generate().water, r.water);
}

#[test]
fn example_board_layout() {
    let b = example_board((42, 42));
    println!("{:?}", b);
    assert_eq!(b.food.len(), 36);
    assert_eq!(b.food[0], ClammsInt2D { x: 1, y: 1 });
    assert_eq!(b.food[35], ClammsInt2D { x: 6, y: 6 });
    assert_eq!(b.water.len(), 5 * 41);
    let mut drift = 0;
    for (k, row) in b.water.chunks(5).enumerate() {
        let shift = row[0].x - (21 - 4);
        assert!((shift - drift).abs() <= 2);
        drift = shift;
        assert_eq!(row[4].x, row[0].x + 4);
        assert_eq!(row[0].y, k as i32 + 1);
    }
}
