use image_filters::engine::plan_recovery;
use image_filters::filter::parse_filter;
use image_filters::filter::FilterKind;
use image_filters::paths::find_first_char;
use image_filters::paths::find_last_char;
use image_filters::paths::find_sub_str;
use image_filters::paths::is_reapplying;
use image_filters::paths::output_path;
use image_filters::paths::strip_processed;
use image_filters::paths::u64_to_dec;

#[test]
fn parses_every_known_filter() {
    assert_eq!(
        parse_filter(&"grayscale".to_string()),
        Some(FilterKind::Grayscale)
    );
    assert_eq!(parse_filter(&"invert".to_string()), Some(FilterKind::Invert));
    assert_eq!(
        parse_filter(&"contrast".to_string()),
        Some(FilterKind::Contrast)
    );
    assert_eq!(parse_filter(&"blur".to_string()), Some(FilterKind::Blur));
    assert_eq!(
        parse_filter(&"sharpen".to_string()),
        Some(FilterKind::Sharpen)
    );
    assert_eq!(parse_filter(&"edges".to_string()), Some(FilterKind::Edges));
    assert_eq!(parse_filter(&"sepia".to_string()), Some(FilterKind::Sepia));
    assert_eq!(
        parse_filter(&"resize_half".to_string()),
        Some(FilterKind::ResizeHalf)
    );
    assert_eq!(
        parse_filter(&"rotate_90_cw".to_string()),
        Some(FilterKind::Rotate90Cw)
    );
    assert_eq!(
        parse_filter(&"rotate_90_ccw".to_string()),
        Some(FilterKind::Rotate90Ccw)
    );
}

#[test]
fn rejects_unknown_filters() {
    assert_eq!(parse_filter(&"".to_string()), None);
    assert_eq!(parse_filter(&"Grayscale".to_string()), None);
    assert_eq!(parse_filter(&"mosaic".to_string()), None);
    assert_eq!(parse_filter(&"grayscale ".to_string()), None);
}

#[test]
fn names_the_documented_example() {
    let out = output_path("photo.png", "grayscale", 1700000000000);
    assert_eq!(out, "./photo_grayscale_1700000000000_processed.jpg");
}

#[test]
fn names_into_the_source_directory() {
    let out = output_path("/a/b/img.jpeg", "blur", 5);
    assert_eq!(out, "/a/b/img_blur_5_processed.jpg");
}

#[test]
fn names_a_rooted_file() {
    let out = output_path("/img.png", "sepia", 7);
    assert_eq!(out, "//img_sepia_7_processed.jpg");
}

#[test]
fn names_with_the_fallback_stem() {
    let out = output_path("dir/", "invert", 3);
    assert_eq!(out, "dir/image_invert_3_processed.jpg");
}

#[test]
fn keeps_the_first_token_only() {
    let out = output_path("./my_summer_shot.png", "edges", 12);
    assert_eq!(out, "./my_edges_12_processed.jpg");
}

#[test]
fn chained_names_stay_distinct_and_share_the_token() {
    let first = output_path("shot.png", "invert", 1);
    assert_eq!(first, "./shot_invert_1_processed.jpg");
    let second = output_path(&first, "invert", 2);
    assert_eq!(second, "./shot_invert_2_processed.jpg");
    assert_ne!(first, second);
    assert!(first.ends_with("_processed.jpg"));
    assert!(second.ends_with("_processed.jpg"));
}

#[test]
fn renders_timestamps_in_decimal() {
    assert_eq!(u64_to_dec(0), "0");
    assert_eq!(u64_to_dec(907), "907");
    assert_eq!(u64_to_dec(1700000000000), "1700000000000");
}

#[test]
fn strips_the_processed_mark() {
    assert_eq!(
        strip_processed("./photo_grayscale_17_processed.jpg"),
        "./photo_grayscale_17"
    );
    assert_eq!(strip_processed("./photo.png"), "./photo.png");
    assert_eq!(strip_processed("a_processed_b_processed"), "a");
}

#[test]
fn sees_a_reapplied_filter_in_the_name() {
    assert!(is_reapplying("./photo_grayscale_17_processed.jpg", "grayscale"));
    assert!(!is_reapplying("./photo_grayscale_17_processed.jpg", "invert"));
    assert!(!is_reapplying("./photo.png", "grayscale"));
}

#[test]
fn plans_recovery_only_for_other_sources() {
    let chained = plan_recovery(
        &"./photo_invert_17_processed.jpg".to_string(),
        &"invert".to_string(),
    );
    assert_eq!(chained, None);
    let recovered = plan_recovery(
        &"./photo_invert_17_processed.jpg".to_string(),
        &"blur".to_string(),
    );
    assert_eq!(recovered, Some("./photo_invert_17".to_string()));
    let fresh = plan_recovery(&"./photo.png".to_string(), &"blur".to_string());
    assert_eq!(fresh, Some("./photo.png".to_string()));
}

#[test]
fn finds_characters_and_substrings() {
    assert_eq!(find_last_char("a/b/c.png", '/'), Some(3));
    assert_eq!(find_last_char("abc", '/'), None);
    assert_eq!(find_first_char("a_b_c", '_'), Some(1));
    assert_eq!(find_first_char("abc", '_'), None);
    assert_eq!(find_sub_str("hello world", "o w"), Some(4));
    assert_eq!(find_sub_str("hello world", "xyz"), None);
    assert_eq!(find_sub_str("aaa", "aa"), Some(0));
}
