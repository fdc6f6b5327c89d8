use klipt::sprite::{filmstrip_canvas, filmstrip_sprite, sprite_cell_height, CellFrame, SPRITE_QUALITY};

#[test]
fn sprite_cell_height_keeps_aspect_even_and_at_least_two() {
    assert_eq!(sprite_cell_height(160, 1920, 1080), Some(90));
    assert_eq!(sprite_cell_height(160, 2560, 1440), Some(90));
    // 160 * 333 / 1000 = 53.28 -> 53 -> 52 (even)
    assert_eq!(sprite_cell_height(160, 1000, 333), Some(52));
    // 160 * 1 / 1000 rounds to 0 -> floor of 2
    assert_eq!(sprite_cell_height(160, 1000, 1), Some(2));
    // exact halves round up: 3 * 1 / 2 = 1.5 -> 2
    assert_eq!(sprite_cell_height(3, 2, 1), Some(2));
    assert_eq!(sprite_cell_height(5, 2, 3), Some(8));
    // zero dimensions are refused
    assert_eq!(sprite_cell_height(160, 0, 1080), None);
    assert_eq!(sprite_cell_height(160, 1920, 0), None);
    // the float computation this mirrors
    for (fw, w, h) in [(160u32, 1920u32, 1080u32), (160, 1280, 720), (160, 640, 481), (100, 3, 7)] {
        let mut want = ((fw as f64) * (h as f64) / (w as f64)).round() as u32;
        want = (want / 2) * 2;
        if want < 2 {
            want = 2;
        }
        assert_eq!(sprite_cell_height(fw, w, h), Some(want));
    }
}

fn cell(byte: u8, w: usize, h: usize, stride: usize) -> Option<CellFrame> {
    Some(CellFrame { data: vec![byte; stride * h], stride })
}

#[test]
fn filmstrip_sprite_encodes_a_jpeg_of_all_cells() {
    let cells = vec![cell(200, 16, 16, 48 + 8), None, cell(40, 16, 16, 48)];
    let jpg = filmstrip_sprite(&cells, 16, 16).unwrap();
    assert_eq!(&jpg[..2], &[0xFF, 0xD8]);
    assert_eq!(&jpg[jpg.len() - 2..], &[0xFF, 0xD9]);
    // A different frame in a cell gives a different picture.
    let other = vec![cell(200, 16, 16, 48 + 8), cell(90, 16, 16, 48), cell(40, 16, 16, 48)];
    assert_ne!(filmstrip_sprite(&other, 16, 16).unwrap(), jpg);
    assert_eq!(SPRITE_QUALITY, 88);
}

#[test]
fn filmstrip_sprite_reports_an_empty_sprite() {
    let none: Vec<Option<CellFrame>> = Vec::new();
    assert_eq!(
        filmstrip_sprite(&none, 16, 16).unwrap_err(),
        "libav jpeg encode: Image dimensions must be non zero: 0x16"
    );
    assert_eq!(
        filmstrip_sprite(&vec![None], 16, 0).unwrap_err(),
        "libav jpeg encode: Image dimensions must be non zero: 16x0"
    );
}

#[test]
fn filmstrip_canvas_places_each_cell_and_skips_row_padding() {
    // Two cells of 1 x 2 pixels (3 bytes a row); the first frame pads its rows
    // to 4 bytes, the second cell has no frame.
    let first = CellFrame { data: vec![1, 2, 3, 99, 4, 5, 6, 99], stride: 4 };
    let cells = vec![Some(first), None, Some(CellFrame { data: vec![7, 8, 9, 10, 11, 12], stride: 3 })];
    let canvas = filmstrip_canvas(&cells, 1, 2);
    assert_eq!(
        canvas,
        vec![1, 2, 3, 0, 0, 0, 7, 8, 9, 4, 5, 6, 0, 0, 0, 10, 11, 12]
    );
}
