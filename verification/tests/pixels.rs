use image_filters::engine::apply_pixels;
use image_filters::engine::Transformed;
use image_filters::geometry::resize_half;
use image_filters::geometry::rotate_ccw;
use image_filters::geometry::rotate_cw;
use image_filters::image::Image;
use image_filters::kernel::blur;
use image_filters::kernel::sharpen;
use image_filters::transform::contrast;
use image_filters::transform::grayscale;
use image_filters::transform::invert;
use image_filters::transform::sepia;

fn gray(width: usize, height: usize, data: Vec<u8>) -> Image {
    assert_eq!(data.len(), width * height);
    Image {
        width,
        height,
        channels: 1,
        data,
    }
}

fn color(width: usize, height: usize, data: Vec<u8>) -> Image {
    assert_eq!(data.len(), width * height * 3);
    Image {
        width,
        height,
        channels: 3,
        data,
    }
}

#[test]
fn inverts_every_sample() {
    let img = gray(3, 1, vec![0, 255, 10]);
    let out = invert(&img);
    assert_eq!(out.width, 3);
    assert_eq!(out.height, 1);
    assert_eq!(out.channels, 1);
    assert_eq!(out.data, vec![255, 0, 245]);
}

#[test]
fn invert_twice_restores_the_raster() {
    let img = color(2, 2, vec![1, 2, 3, 4, 5, 6, 7, 8, 9, 10, 11, 12]);
    let back = invert(&invert(&img));
    assert_eq!(back.width, img.width);
    assert_eq!(back.height, img.height);
    assert_eq!(back.channels, img.channels);
    assert_eq!(back.data, img.data);
}

#[test]
fn contrast_scales_and_clamps() {
    let img = gray(4, 1, vec![0, 1, 100, 200]);
    let out = contrast(&img);
    assert_eq!(out.data, vec![0, 2, 150, 255]);
}

#[test]
fn grayscale_mixes_luma() {
    let img = color(1, 1, vec![10, 20, 30]);
    let out = grayscale(&img);
    assert_eq!(out.channels, 1);
    assert_eq!(out.data, vec![18]);
}

#[test]
fn grayscale_copies_a_single_channel_raster() {
    let img = gray(2, 2, vec![9, 8, 7, 6]);
    let out = grayscale(&img);
    assert_eq!(out.channels, 1);
    assert_eq!(out.width, 2);
    assert_eq!(out.height, 2);
    assert_eq!(out.data, vec![9, 8, 7, 6]);
}

#[test]
fn sepia_mixes_the_fixed_matrix() {
    let img = color(1, 1, vec![100, 100, 100]);
    let out = sepia(&img);
    assert_eq!(out.channels, 3);
    assert_eq!(out.data, vec![94, 120, 135]);
}

#[test]
fn sepia_clamps_bright_pixels() {
    let img = color(1, 1, vec![255, 255, 255]);
    let out = sepia(&img);
    assert_eq!(out.data, vec![239, 255, 255]);
}

#[test]
fn sepia_expands_a_gray_raster() {
    let img = gray(1, 1, vec![100]);
    let out = sepia(&img);
    assert_eq!(out.channels, 3);
    assert_eq!(out.data, vec![94, 120, 135]);
}

#[test]
fn rotates_clockwise() {
    let img = gray(1, 2, vec![1, 2]);
    let out = rotate_cw(&img);
    assert_eq!(out.width, 2);
    assert_eq!(out.height, 1);
    assert_eq!(out.data, vec![2, 1]);
}

#[test]
fn rotates_counter_clockwise() {
    let img = gray(1, 2, vec![1, 2]);
    let out = rotate_ccw(&img);
    assert_eq!(out.width, 2);
    assert_eq!(out.height, 1);
    assert_eq!(out.data, vec![1, 2]);
}

#[test]
fn rotation_round_trip_restores_the_raster() {
    let img = color(
        3,
        2,
        vec![
            1, 2, 3, 4, 5, 6, 7, 8, 9, 10, 11, 12, 13, 14, 15, 16, 17, 18,
        ],
    );
    let turned = rotate_cw(&img);
    assert_eq!(turned.width, 2);
    assert_eq!(turned.height, 3);
    let back = rotate_ccw(&turned);
    assert_eq!(back.width, img.width);
    assert_eq!(back.height, img.height);
    assert_eq!(back.channels, img.channels);
    assert_eq!(back.data, img.data);
}

#[test]
fn halves_the_resolution() {
    let img = gray(
        4,
        4,
        vec![0, 1, 2, 3, 10, 11, 12, 13, 20, 21, 22, 23, 30, 31, 32, 33],
    );
    let out = resize_half(&img);
    assert_eq!(out.width, 2);
    assert_eq!(out.height, 2);
    assert_eq!(out.data, vec![0, 2, 20, 22]);
}

#[test]
fn sharpen_keeps_a_flat_raster() {
    let img = gray(3, 3, vec![7; 9]);
    let out = sharpen(&img);
    assert_eq!(out.data, vec![7; 9]);
}

#[test]
fn sharpen_raises_a_spike() {
    let img = gray(3, 3, vec![0, 0, 0, 0, 10, 0, 0, 0, 0]);
    let out = sharpen(&img);
    assert_eq!(out.data, vec![0, 0, 0, 0, 50, 0, 0, 0, 0]);
}

#[test]
fn blur_keeps_a_flat_raster() {
    let img = color(3, 3, vec![9; 27]);
    let out = blur(&img);
    assert_eq!(out.data, vec![9; 27]);
}

#[test]
fn blur_of_a_single_pixel_is_itself() {
    let img = gray(1, 1, vec![5]);
    let out = blur(&img);
    assert_eq!(out.data, vec![5]);
}

#[test]
fn unknown_filter_copies_the_raster() {
    let img = color(1, 2, vec![1, 2, 3, 4, 5, 6]);
    match apply_pixels(&img, &"mosaic".to_string()) {
        Transformed::Done(out) => {
            assert_eq!(out.width, 1);
            assert_eq!(out.height, 2);
            assert_eq!(out.channels, 3);
            assert_eq!(out.data, vec![1, 2, 3, 4, 5, 6]);
        }
        Transformed::EdgeInput(_) => panic!("an unknown filter must copy"),
    }
}

#[test]
fn edges_hands_back_the_luma_rendering() {
    let img = color(1, 1, vec![10, 20, 30]);
    match apply_pixels(&img, &"edges".to_string()) {
        Transformed::Done(_) => panic!("edges needs the detector"),
        Transformed::EdgeInput(luma) => {
            assert_eq!(luma.channels, 1);
            assert_eq!(luma.data, vec![18]);
        }
    }
}

#[test]
fn dispatch_runs_the_named_filter() {
    let img = gray(1, 1, vec![100]);
    match apply_pixels(&img, &"invert".to_string()) {
        Transformed::Done(out) => assert_eq!(out.data, vec![155]),
        Transformed::EdgeInput(_) => panic!("invert finishes in the engine"),
    }
}
