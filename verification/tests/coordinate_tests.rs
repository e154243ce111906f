use othello::coordinate::Coordinate;
use othello::coordinate::Error;

fn bit_of(x: i32, y: i32) -> u64 {
    0x8000000000000000u64 >> (x + y * 8)
}

#[test]
fn construct_all_on_board_succeed() {
    for x in 0..8 {
        for y in 0..8 {
            let c = Coordinate::new(x, y).unwrap();
            assert_eq!(c.bit, bit_of(x, y));
        }
    }
}

#[test]
fn construct_out_of_range_fails() {
    assert_eq!(Coordinate::new(8, 0).unwrap_err(), Error::OutOfRangeError(8, 0));
    assert_eq!(Coordinate::new(-1, 3).unwrap_err(), Error::OutOfRangeError(-1, 3));
    assert_eq!(Coordinate::new(0, 8).unwrap_err(), Error::OutOfRangeError(0, 8));
    assert_eq!(Coordinate::new(3, -1).unwrap_err(), Error::OutOfRangeError(3, -1));
}

#[test]
fn transfer_moves_one_cell() {
    let c = Coordinate::new(3, 3).unwrap();
    let expect = [
        (3, 2), // direction 0
        (4, 2), // direction 1
        (4, 3), // direction 2
        (4, 4), // direction 3
        (3, 4), // direction 4
        (2, 4), // direction 5
        (2, 3), // direction 6
        (2, 2), // direction 7
    ];
    for (k, (ex, ey)) in expect.iter().enumerate() {
        assert_eq!(c.transfer(k as u32).bit, bit_of(*ex, *ey));
    }
}

#[test]
fn transfer_off_edge_gives_zero() {
    assert_eq!(Coordinate::new(0, 0).unwrap().transfer(0).bit, 0);
    assert_eq!(Coordinate::new(0, 0).unwrap().transfer(6).bit, 0);
    assert_eq!(Coordinate::new(0, 0).unwrap().transfer(7).bit, 0);
    assert_eq!(Coordinate::new(7, 7).unwrap().transfer(3).bit, 0);
    assert_eq!(Coordinate::new(7, 7).unwrap().transfer(4).bit, 0);
    assert_eq!(Coordinate::new(7, 0).unwrap().transfer(2).bit, 0);
}

#[test]
fn transfer_invalid_direction_gives_zero() {
    assert_eq!(Coordinate::new(3, 3).unwrap().transfer(8).bit, 0);
    assert_eq!(Coordinate::new(3, 3).unwrap().transfer(99).bit, 0);
}

#[test]
fn interior_rays_terminate_within_seven_steps() {
    for x in 1..7 {
        for y in 1..7 {
            for k in 0..8u32 {
                let mut c = Coordinate::new(x, y).unwrap();
                for _ in 0..7 {
                    c = c.transfer(k);
                }
                assert_eq!(c.bit, 0);
            }
        }
    }
}

#[test]
fn all_rays_terminate_within_eight_steps() {
    for x in 0..8 {
        for y in 0..8 {
            for k in 0..8u32 {
                let mut c = Coordinate::new(x, y).unwrap();
                for _ in 0..8 {
                    c = c.transfer(k);
                }
                assert_eq!(c.bit, 0);
            }
        }
    }
}
