use image_filters::engine::apply_decoded;
use image_filters::engine::finish_apply;
use image_filters::engine::ApplyOutcome;
use image_filters::engine::Transformed;
use image_filters::image::Image;
use image_filters::session::Session;

#[test]
fn a_fresh_session_is_empty() {
    let s = Session::new();
    assert_eq!(s.original, None);
    assert_eq!(s.last_processed, None);
    assert_eq!(s.last_filter, None);
    assert_eq!(s.source_for(&"blur".to_string()), None);
}

#[test]
fn selecting_a_file_resets_the_record() {
    let mut s = Session::new();
    s.select_file("a.png".to_string());
    s.record_result(
        &"a.png".to_string(),
        "./a_blur_1_processed.jpg".to_string(),
        &"blur".to_string(),
    );
    s.select_file("b.png".to_string());
    assert_eq!(s.original, Some("b.png".to_string()));
    assert_eq!(s.last_processed, None);
    assert_eq!(s.last_filter, None);
}

#[test]
fn the_same_filter_chains_and_another_restarts() {
    let mut s = Session::new();
    s.select_file("a.png".to_string());
    assert_eq!(s.source_for(&"blur".to_string()), Some("a.png".to_string()));
    s.record_result(
        &"a.png".to_string(),
        "./a_blur_1_processed.jpg".to_string(),
        &"blur".to_string(),
    );
    assert_eq!(
        s.source_for(&"blur".to_string()),
        Some("./a_blur_1_processed.jpg".to_string())
    );
    assert_eq!(
        s.source_for(&"invert".to_string()),
        Some("a.png".to_string())
    );
}

#[test]
fn an_unchanged_result_leaves_the_record_alone() {
    let mut s = Session::new();
    s.select_file("a.png".to_string());
    s.record_result(&"a.png".to_string(), "a.png".to_string(), &"blur".to_string());
    assert_eq!(s.last_processed, None);
    assert_eq!(s.last_filter, None);
}

#[test]
fn reset_shows_the_original_and_clears_chaining() {
    let mut s = Session::new();
    s.select_file("a.png".to_string());
    s.record_result(
        &"a.png".to_string(),
        "./a_blur_1_processed.jpg".to_string(),
        &"blur".to_string(),
    );
    s.reset();
    assert_eq!(s.original, Some("a.png".to_string()));
    assert_eq!(s.last_processed, Some("a.png".to_string()));
    assert_eq!(s.last_filter, None);
}

#[test]
fn a_failed_write_reports_the_input_path() {
    let kept = finish_apply(
        "in.png".to_string(),
        "./in_blur_1_processed.jpg".to_string(),
        false,
    );
    assert_eq!(kept, "in.png");
    let fresh = finish_apply(
        "in.png".to_string(),
        "./in_blur_1_processed.jpg".to_string(),
        true,
    );
    assert_eq!(fresh, "./in_blur_1_processed.jpg");
}

#[test]
fn a_failed_decode_hands_the_input_path_back() {
    let outcome = apply_decoded(
        "missing.png".to_string(),
        &"blur".to_string(),
        None,
        None,
        1700000000000,
    );
    match outcome {
        ApplyOutcome::Failed(path) => assert_eq!(path, "missing.png"),
        ApplyOutcome::Write(_, _) => panic!("nothing was decoded"),
    }
}

#[test]
fn a_decoded_source_is_transformed_and_named() {
    let img = Image {
        width: 3,
        height: 1,
        channels: 1,
        data: vec![0, 255, 10],
    };
    let outcome = apply_decoded(
        "photo.png".to_string(),
        &"invert".to_string(),
        Some(img),
        None,
        1700000000000,
    );
    match outcome {
        ApplyOutcome::Failed(_) => panic!("the source decoded"),
        ApplyOutcome::Write(transformed, out_path) => {
            assert_eq!(out_path, "./photo_invert_1700000000000_processed.jpg");
            match transformed {
                Transformed::Done(out) => assert_eq!(out.data, vec![255, 0, 245]),
                Transformed::EdgeInput(_) => panic!("invert finishes in the engine"),
            }
        }
    }
}

#[test]
fn a_recovered_original_wins_over_the_chained_raster() {
    let chained = Image {
        width: 1,
        height: 1,
        channels: 1,
        data: vec![1],
    };
    let original = Image {
        width: 1,
        height: 1,
        channels: 1,
        data: vec![2],
    };
    let outcome = apply_decoded(
        "./photo_blur_1_processed.jpg".to_string(),
        &"invert".to_string(),
        Some(chained),
        Some(original),
        2,
    );
    match outcome {
        ApplyOutcome::Failed(_) => panic!("the source decoded"),
        ApplyOutcome::Write(transformed, out_path) => {
            assert_eq!(out_path, "./photo_invert_2_processed.jpg");
            match transformed {
                Transformed::Done(out) => assert_eq!(out.data, vec![253]),
                Transformed::EdgeInput(_) => panic!("invert finishes in the engine"),
            }
        }
    }
}
