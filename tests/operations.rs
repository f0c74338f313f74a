use image_transform::raster::{add_alpha, drop_alpha, scaled_size, ProcessError};
use image_transform::ops::{parse_operations, Operations, OutputFormat};

fn ops(width: Option<u32>, quality: u8, format: OutputFormat) -> Operations {
    Operations { width, quality, format }
}

#[test]
fn empty_string_gives_defaults() {
    assert_eq!(parse_operations(""), ops(None, 75, OutputFormat::Jpeg));
}

#[test]
fn all_three_keys_are_read() {
    assert_eq!(
        parse_operations("width=500,format=webp,quality=80"),
        ops(Some(500), 80, OutputFormat::WebP)
    );
    assert_eq!(parse_operations("format=png"), ops(None, 75, OutputFormat::Png));
    assert_eq!(parse_operations("format=avif"), ops(None, 75, OutputFormat::Avif));
}

#[test]
fn malformed_tokens_are_skipped() {
    assert_eq!(
        parse_operations("foo,quality=,width=300,format=webp"),
        ops(Some(300), 75, OutputFormat::WebP)
    );
    assert_eq!(parse_operations("foo"), ops(None, 75, OutputFormat::Jpeg));
    assert_eq!(parse_operations("=5,width=7"), ops(Some(7), 75, OutputFormat::Jpeg));
    assert_eq!(parse_operations(",,width=9,,"), ops(Some(9), 75, OutputFormat::Jpeg));
}

#[test]
fn last_occurrence_wins() {
    assert_eq!(parse_operations("width=10,width=20"), ops(Some(20), 75, OutputFormat::Jpeg));
    assert_eq!(parse_operations("format=png,format=gif"), ops(None, 75, OutputFormat::Jpeg));
}

#[test]
fn unknown_format_falls_back_to_jpeg() {
    assert_eq!(parse_operations("format=PNG"), ops(None, 75, OutputFormat::Jpeg));
    assert_eq!(parse_operations("format="), ops(None, 75, OutputFormat::Jpeg));
}

#[test]
fn width_must_be_a_positive_integer() {
    assert_eq!(parse_operations("width=0").width, None);
    assert_eq!(parse_operations("width=-4").width, None);
    assert_eq!(parse_operations("width=12px").width, None);
    assert_eq!(parse_operations("width=+12").width, Some(12));
    assert_eq!(parse_operations("width=4294967295").width, Some(4294967295));
    assert_eq!(parse_operations("width=4294967296").width, None);
    assert_eq!(parse_operations("width=5=6").width, None);
}

#[test]
fn quality_is_bounded() {
    assert_eq!(parse_operations("quality=0").quality, 0);
    assert_eq!(parse_operations("quality=100").quality, 100);
    assert_eq!(parse_operations("quality=200").quality, 100);
    assert_eq!(parse_operations("quality=256").quality, 75);
    assert_eq!(parse_operations("quality=abc").quality, 75);
}

#[test]
fn height_is_rounded_to_keep_the_ratio() {
    assert_eq!(scaled_size(1000, 500, 500), Ok((500, 250)));
    assert_eq!(scaled_size(4, 3, 2), Ok((2, 2)));
    assert_eq!(scaled_size(3, 2, 1), Ok((1, 1)));
    assert_eq!(scaled_size(300, 200, 100), Ok((100, 67)));
    assert_eq!(scaled_size(640, 480, 1280), Ok((1280, 960)));
}

#[test]
fn height_is_at_least_one() {
    assert_eq!(scaled_size(3, 1, 1), Ok((1, 1)));
    assert_eq!(scaled_size(1000, 1, 10), Ok((10, 1)));
}

#[test]
fn impossible_sizes_are_resize_errors() {
    assert_eq!(scaled_size(0, 10, 10), Err(ProcessError::Resize));
    assert_eq!(scaled_size(10, 10, 0), Err(ProcessError::Resize));
    assert_eq!(scaled_size(1, 4294967295, 2), Err(ProcessError::Resize));
}

#[test]
fn alpha_is_added_and_dropped() {
    let rgb = vec![1u8, 2, 3, 4, 5, 6];
    let rgba = add_alpha(&rgb, 2);
    assert_eq!(rgba, vec![1u8, 2, 3, 255, 4, 5, 6, 255]);
    assert_eq!(drop_alpha(&[9u8, 8, 7, 6, 5, 4, 3, 2], 2), vec![9u8, 8, 7, 5, 4, 3]);
}
