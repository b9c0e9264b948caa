//! Tests for the common helpers: dimension parsing, the progress
//! counter, the random source, errors and the gradient generator.

use raytracer::common::errors::{DirError, FileError, PrettyError};
use raytracer::common::input::{parse_dimensions, parse_u32, Dimensions, DimensionsParseError};
use raytracer::common::progress::ProgressBar;
use raytracer::common::random::Rng;
use raytracer::generate::gradient_image;

#[test]
fn dimensions_parse_valid_pairs() {
    assert_eq!(parse_dimensions(b"800x600"), Ok(Dimensions(800, 600)));
    assert_eq!(parse_dimensions(b"1x1"), Ok(Dimensions(1, 1)));
    assert_eq!(parse_dimensions(b"4294967295x2"), Ok(Dimensions(4294967295, 2)));
}

#[test]
fn dimensions_parse_errors() {
    assert_eq!(parse_dimensions(b"800600"), Err(DimensionsParseError::MissingX));
    assert_eq!(parse_dimensions(b""), Err(DimensionsParseError::MissingX));
    assert_eq!(parse_dimensions(b"ax600"), Err(DimensionsParseError::WidthParseFail));
    assert_eq!(parse_dimensions(b"x600"), Err(DimensionsParseError::WidthParseFail));
    assert_eq!(parse_dimensions(b"800x"), Err(DimensionsParseError::HeightParseFail));
    assert_eq!(parse_dimensions(b"800x6b"), Err(DimensionsParseError::HeightParseFail));
    // One past the largest 32-bit value overflows the width.
    assert_eq!(parse_dimensions(b"4294967296x2"), Err(DimensionsParseError::WidthParseFail));
}

#[test]
fn numeral_parsing() {
    assert_eq!(parse_u32(b"0"), Some(0));
    assert_eq!(parse_u32(b"123"), Some(123));
    assert_eq!(parse_u32(b"4294967295"), Some(4294967295));
    assert_eq!(parse_u32(b"4294967296"), None);
    assert_eq!(parse_u32(b""), None);
    assert_eq!(parse_u32(b"1a"), None);
}

#[test]
fn dimensions_accessors() {
    let d = Dimensions(800, 600);
    assert_eq!(d.width(), 800);
    assert_eq!(d.height(), 600);
}

#[test]
fn progress_counts_and_saturates() {
    let mut bar = ProgressBar::new(10);
    assert_eq!(bar.size, 0);
    assert_eq!(bar.capacity, 10);
    assert!(bar.step().is_ok());
    assert_eq!(bar.size, 1);
    assert!(bar.update(7).is_ok());
    assert_eq!(bar.size, 8);
    assert!(bar.update(1000).is_ok());
    assert_eq!(bar.size, 10);
    assert!(bar.clear().is_ok());
    assert_eq!(bar.size, 0);
    assert!(bar.render().is_ok());
}

#[test]
fn seeded_generator_is_reproducible() {
    let mut a = Rng::seeded(12345);
    let mut b = Rng::seeded(12345);
    for _ in 0..16 {
        assert_eq!(a.next_u64(), b.next_u64());
    }
    let mut c = Rng::seeded(12346);
    assert_ne!(a.next_u64(), c.next_u64());
    let mut d = Rng::seeded(1);
    let unit = d.next_unit();
    assert!((0..65536).contains(&unit));
}

#[test]
fn entropy_generator_produces_values() {
    let mut r = Rng::from_entropy();
    let _ = r.next_u64();
    let u = r.next_unit();
    assert!((0..65536).contains(&u));
}

#[test]
fn gradient_bytes_ramp() {
    let bytes = gradient_image((2, 2));
    assert_eq!(
        bytes,
        vec![
            0, 255, 64, 255, 255, 255, 64, 255,  // top row: full green
            0, 0, 64, 255, 255, 0, 64, 255,  // bottom row: no green
        ]
    );
}

#[test]
fn error_messages() {
    let open = FileError::Open(String::from("scene.yml"));
    assert_eq!(open.message(), "failed to open file");
    assert_eq!(FileError::Read(String::new()).message(), "failed to read from file");
    assert_eq!(FileError::Create(String::new()).message(), "failed to create file");
    assert_eq!(FileError::Write(String::new()).message(), "failed to write to file");
    let dir = DirError::Create(String::from("out"));
    assert_eq!(dir.message(), "failed to create directory");
    let stack = open.stack();
    assert_eq!(stack.lines, vec!["failed to open file"]);
    assert_eq!(dir.stack().lines, vec!["failed to create directory"]);
}
