use rsbrainfuck::memoryband::{
    FiniteMemoryBand, InfiniteMemoryBand, MemoryBand, TapeFault, BAND_CELLS, START_CELL,
};

const NEG1: u8 = u8::MAX;

fn band_of(cells: &[u8], current_index: usize) -> InfiniteMemoryBand {
    InfiniteMemoryBand::with_cells(cells, current_index).unwrap()
}

#[test]
fn test_new() {
    let band = InfiniteMemoryBand::new();
    let expected = band_of(&[0], 0);
    assert_eq!(band, expected);
}

#[test]
fn test_read() {
    let band = band_of(&[1, 2], 1);
    assert_eq!(2, band.read());
}

#[test]
fn test_write() {
    let mut band = band_of(&[1, 2], 1);
    band.write(NEG1 - 4); // -5

    let expected = band_of(&[1, NEG1 - 4], 1);

    assert_eq!(band, expected);
}

#[test]
fn test_add() {
    let mut band = InfiniteMemoryBand::new();
    band.add(NEG1);

    let expected = band_of(&[NEG1], 0);

    assert_eq!(band, expected);
}

#[test]
fn test_move_right() {
    let mut band = InfiniteMemoryBand::new();
    band.write(4);
    band.move_right(2).unwrap();

    let expected = band_of(&[4, 0, 0], 2);
    assert_eq!(band, expected);
}

#[test]
fn test_move_left() {
    let mut band = InfiniteMemoryBand::new();
    band.write(4);
    band.move_right(1).unwrap();
    band.move_left(3).unwrap();

    let expected = band_of(&[0, 0, 4, 0], 0);
    assert_eq!(band, expected);
}

#[test]
fn with_cells_wants_the_head_on_a_cell() {
    assert_eq!(InfiniteMemoryBand::with_cells(&[1, 2], 2), None);
    assert_eq!(InfiniteMemoryBand::with_cells(&[], 0), None);
    assert!(InfiniteMemoryBand::with_cells(&[1, 2], 1).is_some());
}

#[test]
fn write_changes_only_the_cell_under_the_head() {
    let mut band = band_of(&[7, 8, 9], 1);
    band.write(0);
    assert_eq!(band, band_of(&[7, 0, 9], 1));
    assert_eq!(band.read(), 0);
}

#[test]
fn add_wraps_at_256() {
    let mut band = band_of(&[250], 0);
    band.add(10);
    assert_eq!(band.read(), 4);
    band.add(NEG1);
    assert_eq!(band.read(), 3);
    band.add(0);
    assert_eq!(band.read(), 3);
}

#[test]
fn one_step_left_of_a_new_unbounded_band() {
    let mut band = InfiniteMemoryBand::new();
    assert_eq!(band.move_head(-1), Ok(()));
    assert_eq!(band, band_of(&[0, 0], 0));
}

#[test]
fn unbounded_band_moves_within_its_cells_without_growing() {
    let mut band = band_of(&[1, 2, 3, 4], 1);
    assert_eq!(band.move_head(2), Ok(()));
    assert_eq!(band, band_of(&[1, 2, 3, 4], 3));
    assert_eq!(band.move_head(-3), Ok(()));
    assert_eq!(band, band_of(&[1, 2, 3, 4], 0));
    assert_eq!(band.move_head(0), Ok(()));
    assert_eq!(band, band_of(&[1, 2, 3, 4], 0));
}

#[test]
fn unbounded_band_grows_by_zeroed_cells_on_either_side() {
    let mut band = band_of(&[5, 6], 1);
    assert_eq!(band.move_head(3), Ok(()));
    assert_eq!(band, band_of(&[5, 6, 0, 0, 0], 4));
    assert_eq!(band.move_head(-6), Ok(()));
    assert_eq!(band, band_of(&[0, 0, 5, 6, 0, 0, 0], 0));
    assert_eq!(band.read(), 0);
}

#[test]
fn unbounded_band_left_move_of_zero_at_the_first_cell() {
    let mut band = band_of(&[9], 0);
    assert_eq!(band.move_left(0), Ok(()));
    assert_eq!(band, band_of(&[9], 0));
}

#[test]
fn unbounded_band_stops_at_the_machine_limit() {
    let mut band = band_of(&[1, 2], 1);
    assert_eq!(band.move_right(usize::MAX), Err(TapeFault::RightEdge));
    assert_eq!(band.move_right(usize::MAX - 1), Err(TapeFault::RightEdge));
    assert_eq!(band.move_left(usize::MAX), Err(TapeFault::LeftEdge));
    assert_eq!(band, band_of(&[1, 2], 1));
}

#[test]
fn bounded_band_starts_in_the_middle_with_zeroed_cells() {
    assert_eq!(BAND_CELLS, 30_000);
    assert_eq!(START_CELL, 15_000);
    let mut band = FiniteMemoryBand::new();
    assert_eq!(band.read(), 0);
    assert_eq!(band.move_head(-15_000), Ok(()));
    assert_eq!(band.read(), 0);
    assert_eq!(band.move_head(29_999), Ok(()));
    assert_eq!(band.read(), 0);
}

#[test]
fn bounded_band_left_move_past_the_edge_is_a_fault() {
    let mut band = FiniteMemoryBand::new();
    band.write(3);
    assert_eq!(band.move_head(-15_001), Err(TapeFault::LeftEdge));
    assert_eq!(band.read(), 3);
    assert_eq!(band.move_head(-15_000), Ok(()));
    assert_eq!(band.move_head(-1), Err(TapeFault::LeftEdge));
    assert_eq!(band.move_left(1), Err(TapeFault::LeftEdge));
    assert_eq!(band.move_head(isize::MIN), Err(TapeFault::LeftEdge));
}

#[test]
fn bounded_band_right_move_past_the_edge_is_a_fault() {
    let mut band = FiniteMemoryBand::new();
    band.write(3);
    assert_eq!(band.move_head(15_000), Err(TapeFault::RightEdge));
    assert_eq!(band.read(), 3);
    assert_eq!(band.move_head(14_999), Ok(()));
    assert_eq!(band.move_head(1), Err(TapeFault::RightEdge));
    assert_eq!(band.move_right(usize::MAX), Err(TapeFault::RightEdge));
    assert_eq!(band.move_head(isize::MAX), Err(TapeFault::RightEdge));
}

#[test]
fn bounded_band_keeps_its_cells_while_the_head_moves() {
    let mut band = FiniteMemoryBand::new();
    band.write(200);
    band.add(100);
    assert_eq!(band.read(), 44);
    band.move_right(2).unwrap();
    band.write(9);
    band.move_left(2).unwrap();
    assert_eq!(band.read(), 44);
    band.move_head(2).unwrap();
    assert_eq!(band.read(), 9);
}

#[test]
fn fault_message() {
    assert_eq!(TapeFault::LeftEdge.message(), "The maximum length of the band was reached");
    assert_eq!(TapeFault::RightEdge.message(), "The maximum length of the band was reached");
}
