use launchcast::glyph::{battery_segments, lit_cells, FillRect};

#[test]
fn bitmap_cells_are_read_msb_first_row_by_row() {
    let bits = [0b1010_0000u8, 0b0100_0000u8];
    assert_eq!(lit_cells(&bits, 3, 2), vec![(0, 0), (2, 0), (1, 1)]);
}

#[test]
fn bitmap_rows_are_padded_to_whole_bytes() {
    // 10 columns take two bytes per row; column 9 is bit 6 of the second.
    let bits = [0x80u8, 0x40u8, 0x00u8, 0xC0u8];
    assert_eq!(lit_cells(&bits, 10, 2), vec![(0, 0), (9, 0), (8, 1), (9, 1)]);
}

#[test]
fn blank_bitmap_has_no_cells() {
    assert_eq!(lit_cells(&[0u8; 4], 8, 4), Vec::<(usize, usize)>::new());
}

#[test]
fn battery_gauge_segments_step_by_four_pixels() {
    let segs = battery_segments(10, 20, 3);
    assert_eq!(
        segs,
        vec![
            FillRect { x: 12, y: 22, w: 3, h: 6 },
            FillRect { x: 16, y: 22, w: 3, h: 6 },
            FillRect { x: 20, y: 22, w: 3, h: 6 },
        ]
    );
    assert!(battery_segments(0, 0, 0).is_empty());
    assert_eq!(battery_segments(0, 0, 4).len(), 4);
}
