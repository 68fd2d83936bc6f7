use game_asset::layout::{contact_cell_origin, frame_file_name, pack_layout, sample_window, slice_sheet, validate_contact_sheet};
use game_asset::pixels::{
    alpha_bounds, color_distance_sq, crop, detect_key_color, green_source_has_key_background, image_is_uniform, key_out,
    trim_alpha, Rgba8Image,
};

#[test]
fn image_is_uniform_detects_flat_vs_varied() {
    let flat = Rgba8Image::from_pixel(4, 4, [10, 20, 30, 255]);
    assert!(image_is_uniform(&flat));
    let mut varied = Rgba8Image::from_pixel(4, 4, [10, 20, 30, 255]);
    varied.put_pixel(2, 1, [11, 20, 30, 255]);
    assert!(!image_is_uniform(&varied));
}

#[test]
fn empty_image_counts_as_uniform() {
    assert!(image_is_uniform(&Rgba8Image::from_pixel(0, 3, [1, 2, 3, 4])));
}

#[test]
fn trims_alpha() {
    let mut img = Rgba8Image::from_pixel(4, 4, [0, 0, 0, 0]);
    img.put_pixel(1, 2, [255, 255, 255, 255]);
    let out = trim_alpha(&img).unwrap();
    assert_eq!(out.dimensions(), (1, 1));
    assert_eq!(out.get_pixel(0, 0), [255, 255, 255, 255]);
}

#[test]
fn trim_alpha_of_transparent_image_is_none() {
    let img = Rgba8Image::from_pixel(3, 3, [9, 9, 9, 0]);
    assert!(trim_alpha(&img).is_none());
    assert!(alpha_bounds(&img).is_none());
}

#[test]
fn alpha_bounds_span_all_opaque_pixels() {
    let mut img = Rgba8Image::from_pixel(6, 5, [0, 0, 0, 0]);
    img.put_pixel(1, 3, [1, 1, 1, 1]);
    img.put_pixel(4, 1, [1, 1, 1, 200]);
    assert_eq!(alpha_bounds(&img), Some((1, 1, 4, 3)));
    let t = trim_alpha(&img).unwrap();
    assert_eq!(t.dimensions(), (4, 3));
    assert_eq!(t.get_pixel(0, 2), [1, 1, 1, 1]);
    assert_eq!(t.get_pixel(3, 0), [1, 1, 1, 200]);
}

#[test]
fn crop_takes_the_window() {
    let mut img = Rgba8Image::from_pixel(5, 5, [0, 0, 0, 255]);
    img.put_pixel(3, 2, [7, 8, 9, 255]);
    let c = crop(&img, 2, 1, 2, 3);
    assert_eq!(c.dimensions(), (2, 3));
    assert_eq!(c.get_pixel(1, 1), [7, 8, 9, 255]);
    assert_eq!(c.get_pixel(0, 0), [0, 0, 0, 255]);
}

#[test]
fn detects_green_source_background() {
    let green = Rgba8Image::from_pixel(8, 8, [0, 255, 0, 255]);
    assert!(green_source_has_key_background(&green, [0, 255, 0]));
    let red = Rgba8Image::from_pixel(8, 8, [255, 0, 0, 255]);
    assert!(!green_source_has_key_background(&red, [0, 255, 0]));
}

#[test]
fn green_background_needs_five_percent_of_pixels() {
    // 100 pixels: 5 near the key is enough, 4 is not.
    let mut img = Rgba8Image::from_pixel(10, 10, [255, 0, 0, 255]);
    for x in 0..4 {
        img.put_pixel(x, 0, [10, 250, 10, 255]);
    }
    assert!(!green_source_has_key_background(&img, [0, 255, 0]));
    img.put_pixel(4, 0, [0, 255, 0, 255]);
    assert!(green_source_has_key_background(&img, [0, 255, 0]));
}

#[test]
fn detect_key_color_picks_majority_corner() {
    let mut img = Rgba8Image::from_pixel(8, 8, [0, 255, 0, 255]);
    img.put_pixel(7, 7, [255, 0, 0, 255]);
    assert_eq!(detect_key_color(&img).unwrap(), [0, 255, 0]);
}

#[test]
fn detect_key_color_ties_go_to_the_first_corner() {
    let mut img = Rgba8Image::from_pixel(2, 2, [0, 0, 255, 255]);
    img.put_pixel(1, 0, [0, 0, 255, 255]);
    img.put_pixel(0, 1, [255, 0, 0, 255]);
    img.put_pixel(1, 1, [255, 0, 0, 255]);
    assert_eq!(detect_key_color(&img).unwrap(), [0, 0, 255]);
}

#[test]
fn detect_key_color_rejects_empty_frame() {
    let err = detect_key_color(&Rgba8Image::from_pixel(0, 0, [0, 0, 0, 0])).unwrap_err();
    assert_eq!(err.code, 3);
    assert_eq!(err.message, "first frame is empty");
}

#[test]
fn key_out_clears_alpha_near_the_key_only() {
    let mut img = Rgba8Image::from_pixel(2, 1, [0, 255, 0, 255]);
    img.put_pixel(1, 0, [0, 200, 180, 255]);
    let k = key_out(&img, [0, 255, 0]);
    assert_eq!(k.get_pixel(0, 0), [0, 255, 0, 0]);
    assert_eq!(k.get_pixel(1, 0), [0, 200, 180, 255]);
    assert_eq!(color_distance_sq([30, 255, 30, 255], [0, 255, 0]), 1800);
}

#[test]
fn slice_sheet_cuts_row_by_row() {
    let mut img = Rgba8Image::from_pixel(5, 4, [0, 0, 0, 255]);
    img.put_pixel(2, 0, [1, 0, 0, 255]);
    img.put_pixel(0, 2, [2, 0, 0, 255]);
    let s = slice_sheet(&img, 2, 2).unwrap();
    assert_eq!(s.frames.len(), 4);
    assert_eq!(s.frames[0].dimensions(), (2, 2));
    assert_eq!(s.frames[1].get_pixel(0, 0), [1, 0, 0, 255]);
    assert_eq!(s.frames[2].get_pixel(0, 0), [2, 0, 0, 255]);
    assert!(s.warning.is_some());
    let err = slice_sheet(&img, 8, 1).unwrap_err();
    assert_eq!(err.code, 2);
    assert_eq!(err.message, "grid is larger than image");
}

#[test]
fn pack_layout_places_frames_in_rows() {
    let p = pack_layout(5, 2, 16, 8).unwrap();
    assert_eq!((p.sheet_width, p.sheet_height), (32, 24));
    assert_eq!(p.positions, vec![(0, 0), (16, 0), (0, 8), (16, 8), (0, 16)]);
    assert_eq!(pack_layout(1, 1, 20000, 1).unwrap_err().code, 2);
}

#[test]
fn frame_names_are_zero_padded() {
    assert_eq!(frame_file_name(0), "frame_000.png");
    assert_eq!(frame_file_name(42), "frame_042.png");
    assert_eq!(frame_file_name(1234), "frame_1234.png");
}

#[test]
fn rejects_small_contact_sheet_cell() {
    let err = validate_contact_sheet(1, 8).unwrap_err();
    assert_eq!(err.code, 2);
    assert!(validate_contact_sheet(1, 13).is_ok());
    assert_eq!(validate_contact_sheet(0, 64).unwrap_err().code, 2);
}

#[test]
fn contact_cells_center_thumbnails() {
    assert_eq!(contact_cell_origin(0, 3, 100, 88, 60), (6, 20));
    assert_eq!(contact_cell_origin(4, 3, 100, 88, 88), (106, 106));
}

#[test]
fn waveform_columns_share_the_samples() {
    assert_eq!(sample_window(0, 10, 4), (0, 2));
    assert_eq!(sample_window(3, 10, 4), (7, 10));
    assert_eq!(sample_window(0, 2, 8), (0, 1));
    assert_eq!(sample_window(7, 2, 8), (1, 2));
}
