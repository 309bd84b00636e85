use shotdiff::cli::{parse_args, parse_u8, ArgError, Command, ValueFlag};
use shotdiff::diff::{build_diff, compare};
use shotdiff::encode::{b64, data_uri, sniff_mime};
use shotdiff::html::{build_html, u8_to_decimal};
use shotdiff::pixel::{context_pixel, diff_pixel, pixel_delta};
use shotdiff::raster::{hcat, pad_to, Image};

const PINK: [u8; 4] = [0xFF, 0x2D, 0x87, 0xFF];
const GAP_BG: [u8; 4] = [0x1a, 0x1a, 0x1a, 0xFF];
const CLEAR: [u8; 4] = [0, 0, 0, 0];

fn image(width: u32, height: u32, pixels: Vec<[u8; 4]>) -> Image {
    Image::from_pixels(width, height, pixels).expect("pixel count matches the dimensions")
}

fn at(img: &Image, x: u32, y: u32) -> [u8; 4] {
    img.pixels()[(y * img.width() + x) as usize]
}

fn strings(args: &[&str]) -> Vec<String> {
    args.iter().map(|s| s.to_string()).collect()
}

fn parse(args: &[&str]) -> Result<Command, ArgError> {
    let args = strings(args);
    let ok: Vec<bool> = args.iter().map(|a| a.trim_end_matches('%').trim().parse::<f64>().is_ok()).collect();
    parse_args(&args, &ok)
}

#[test]
fn delta_is_max_abs_channel() {
    assert_eq!(pixel_delta(&[10, 20, 30, 255], &[10, 20, 30, 255]), 0);
    assert_eq!(pixel_delta(&[0, 0, 0, 255], &[5, 0, 200, 255]), 200);
    assert_eq!(pixel_delta(&[255, 255, 255, 255], &[255, 255, 255, 0]), 255);
}

#[test]
fn delta_is_symmetric() {
    let a = [3, 250, 17, 0];
    let b = [200, 1, 17, 255];
    assert_eq!(pixel_delta(&a, &b), pixel_delta(&b, &a));
    assert_eq!(pixel_delta(&a, &b), 255);
    assert_eq!(pixel_delta(&[1, 2, 3, 4], &[2, 4, 6, 8]), 4);
}

#[test]
fn context_pixel_is_light_grey() {
    assert_eq!(context_pixel(&[0, 0, 0, 0]), [128, 128, 128, 255]);
    assert_eq!(context_pixel(&[255, 255, 255, 0]), [255, 255, 255, 255]);
    // luma = (77*100 + 150*50 + 29*200) >> 8 = 21000 >> 8 = 82; 128 + 41 = 169
    assert_eq!(context_pixel(&[100, 50, 200, 7]), [169, 169, 169, 255]);
}

#[test]
fn diff_pixel_marks_changes_in_pink() {
    assert_eq!(diff_pixel(&[0, 0, 0, 255], &[17, 0, 0, 255], 16), PINK);
    assert_eq!(diff_pixel(&[0, 0, 0, 255], &[16, 0, 0, 255], 16), [130, 130, 130, 255]);
    assert_eq!(diff_pixel(&[0, 0, 0, 255], &[255, 0, 0, 255], 255), [166, 166, 166, 255]);
}

#[test]
fn from_pixels_checks_the_pixel_count() {
    assert!(Image::from_pixels(2, 2, vec![CLEAR; 3]).is_none());
    assert!(Image::from_pixels(2, 2, vec![CLEAR; 5]).is_none());
    let img = Image::from_pixels(2, 2, vec![CLEAR; 4]).unwrap();
    assert_eq!((img.width(), img.height(), img.pixels().len()), (2, 2, 4));
    assert!(Image::from_pixels(0, 7, vec![]).is_some());
}

#[test]
fn build_diff_counts_and_paints() {
    let a = image(2, 1, vec![[0, 0, 0, 255], [10, 10, 10, 255]]);
    let b = image(2, 1, vec![[0, 0, 0, 255], [200, 10, 10, 255]]);
    let (out, changed) = build_diff(&a, &b, 16);
    assert_eq!(changed, 1);
    assert_eq!((out.width(), out.height()), (2, 1));
    assert_eq!(out.pixels()[0], [128, 128, 128, 255]);
    assert_eq!(out.pixels()[1], PINK);
}

#[test]
fn build_diff_of_identical_images_finds_nothing() {
    let a = image(3, 1, vec![[1, 2, 3, 4], [255, 0, 255, 0], [9, 9, 9, 9]]);
    let (out, changed) = build_diff(&a, &a, 0);
    assert_eq!(changed, 0);
    assert!(out.pixels().iter().all(|p| *p != PINK));
}

#[test]
fn build_diff_with_shorter_after_leaves_the_rest_blank() {
    let a = image(3, 1, vec![[0, 0, 0, 255]; 3]);
    let b = image(1, 1, vec![[255, 255, 255, 255]]);
    let (out, changed) = build_diff(&a, &b, 16);
    assert_eq!(changed, 1);
    assert_eq!(out.pixels(), &vec![PINK, CLEAR, CLEAR]);
}

#[test]
fn higher_threshold_counts_fewer_changes() {
    let a = image(3, 1, vec![[0, 0, 0, 255]; 3]);
    let b = image(3, 1, vec![[10, 0, 0, 255], [50, 0, 0, 255], [100, 0, 0, 255]]);
    assert_eq!(build_diff(&a, &b, 0).1, 3);
    assert_eq!(build_diff(&a, &b, 10).1, 2);
    assert_eq!(build_diff(&a, &b, 50).1, 1);
    assert_eq!(build_diff(&a, &b, 255).1, 0);
}

#[test]
fn pad_to_aligns_top_left() {
    let src = image(1, 1, vec![[9, 8, 7, 6]]);
    let out = pad_to(&src, 2, 2, CLEAR);
    assert_eq!((out.width(), out.height()), (2, 2));
    assert_eq!(out.pixels(), &vec![[9, 8, 7, 6], CLEAR, CLEAR, CLEAR]);
    let same = pad_to(&src, 1, 1, CLEAR);
    assert_eq!(same.pixels(), src.pixels());
}

#[test]
fn hcat_places_panels_with_gaps() {
    let p = image(1, 1, vec![[1, 1, 1, 1]]);
    let q = image(2, 2, vec![[2, 2, 2, 2], [3, 3, 3, 3], [4, 4, 4, 4], [5, 5, 5, 5]]);
    let out = hcat(&[&p, &q]);
    assert_eq!((out.width(), out.height()), (19, 2));
    assert_eq!(at(&out, 0, 0), [1, 1, 1, 1]);
    assert_eq!(at(&out, 0, 1), GAP_BG);
    assert_eq!(at(&out, 1, 0), GAP_BG);
    assert_eq!(at(&out, 16, 0), GAP_BG);
    assert_eq!(at(&out, 17, 0), [2, 2, 2, 2]);
    assert_eq!(at(&out, 18, 1), [5, 5, 5, 5]);
    let empty = hcat(&[]);
    assert_eq!((empty.width(), empty.height()), (0, 0));
}

#[test]
fn compare_lays_out_before_diff_after() {
    let a = image(2, 1, vec![[0, 0, 0, 255], [0, 0, 0, 255]]);
    let b = image(1, 2, vec![[0, 0, 0, 255], [255, 255, 255, 255]]);
    let c = compare(&a, &b, 16, false);
    assert_eq!((c.width, c.height), (2, 2));
    assert_eq!((c.result.changed, c.result.total), (2, 4));
    let out = &c.composite;
    assert_eq!((out.width(), out.height()), (3 * 2 + 32, 2));
    assert_eq!(at(out, 0, 0), [0, 0, 0, 255]);
    assert_eq!(at(out, 0, 1), CLEAR);
    assert_eq!(at(out, 2, 0), GAP_BG);
    assert_eq!(at(out, 18, 0), [128, 128, 128, 255]);
    assert_eq!(at(out, 19, 0), PINK);
    assert_eq!(at(out, 18, 1), PINK);
    assert_eq!(at(out, 20, 0), GAP_BG);
    assert_eq!(at(out, 36, 1), [255, 255, 255, 255]);
    assert_eq!(at(out, 37, 0), CLEAR);
}

#[test]
fn compare_diff_only_outputs_the_diff_panel() {
    let a = image(1, 1, vec![[0, 0, 0, 255]]);
    let b = image(1, 1, vec![[0, 0, 40, 255]]);
    let c = compare(&a, &b, 16, true);
    assert_eq!((c.composite.width(), c.composite.height()), (1, 1));
    assert_eq!(c.composite.pixels(), &vec![PINK]);
    assert_eq!((c.result.changed, c.result.total), (1, 1));
}

#[test]
fn b64_matches_rfc4648_vectors() {
    assert_eq!(b64(b""), "");
    assert_eq!(b64(b"f"), "Zg==");
    assert_eq!(b64(b"fo"), "Zm8=");
    assert_eq!(b64(b"foo"), "Zm9v");
    assert_eq!(b64(b"foob"), "Zm9vYg==");
    assert_eq!(b64(b"fooba"), "Zm9vYmE=");
    assert_eq!(b64(b"foobar"), "Zm9vYmFy");
    assert_eq!(b64(&[0xFB, 0xFF, 0xBF]), "+/+/");
    assert_eq!(b64(&[0, 16, 131]), "ABCD");
}

#[test]
fn sniff_mime_reads_signatures() {
    assert_eq!(sniff_mime(&[0x89, 0x50, 0x4E, 0x47, 0x0D]), "image/png");
    assert_eq!(sniff_mime(&[0xFF, 0xD8, 0xFF]), "image/jpeg");
    assert_eq!(sniff_mime(b"GIF89a"), "image/gif");
    assert_eq!(sniff_mime(b"RIFF\0\0\0\0WEBPVP8 "), "image/webp");
    assert_eq!(sniff_mime(b"RIFF\0\0\0\0WAVE"), "application/octet-stream");
    assert_eq!(sniff_mime(b"RIFF\0\0\0\0WEB"), "application/octet-stream");
    assert_eq!(sniff_mime(b"BM\0\0"), "image/bmp");
    assert_eq!(sniff_mime(&[0x89, 0x50, 0x4E]), "application/octet-stream");
    assert_eq!(sniff_mime(&[]), "application/octet-stream");
}

#[test]
fn data_uri_embeds_type_and_base64() {
    assert_eq!(data_uri(&[0x89, 0x50, 0x4E, 0x47]), "data:image/png;base64,iVBORw==");
    assert_eq!(data_uri(b"hi"), "data:application/octet-stream;base64,aGk=");
}

#[test]
fn u8_to_decimal_writes_digits() {
    assert_eq!(u8_to_decimal(0), "0");
    assert_eq!(u8_to_decimal(7), "7");
    assert_eq!(u8_to_decimal(16), "16");
    assert_eq!(u8_to_decimal(100), "100");
    assert_eq!(u8_to_decimal(255), "255");
}

#[test]
fn build_html_embeds_sources_and_threshold() {
    let html = build_html("data:a", "data:b", 42);
    assert!(html.starts_with("<!doctype html>\n<html lang=\"en\">"));
    assert!(html.contains("<input id=\"th\" type=\"range\" min=\"0\" max=\"255\" value=\"42\">"));
    assert!(html.contains("<output id=\"thv\">42</output>"));
    assert!(html.contains("const SRC_A = \"data:a\";\nconst SRC_B = \"data:b\";"));
    assert!(html.contains(":root { --pink: #FF2D87; }"));
    assert!(html.ends_with("</html>\n"));
    assert!(!html.contains("{{"));
}

#[test]
fn parse_u8_follows_rust_rules() {
    assert_eq!(parse_u8("0"), Some(0));
    assert_eq!(parse_u8("255"), Some(255));
    assert_eq!(parse_u8("+5"), Some(5));
    assert_eq!(parse_u8("007"), Some(7));
    assert_eq!(parse_u8("256"), None);
    assert_eq!(parse_u8("99999999999"), None);
    assert_eq!(parse_u8("-1"), None);
    assert_eq!(parse_u8(""), None);
    assert_eq!(parse_u8("+"), None);
    assert_eq!(parse_u8("1a"), None);
    assert_eq!(parse_u8(" 1"), None);
    for s in ["0", "9", "10", "128", "255", "256", "+0", "-0", "00", "1e2"] {
        assert_eq!(parse_u8(s), s.parse::<u8>().ok(), "{s}");
    }
}

#[test]
fn parse_args_defaults() {
    match parse(&["a.png", "b.png"]) {
        Ok(Command::Run(a)) => {
            assert_eq!(a.before, "a.png");
            assert_eq!(a.after, "b.png");
            assert_eq!(a.output, "shotdiff-out.png");
            assert_eq!(a.threshold, 16);
            assert!(!a.diff_only && !a.browser && !a.fail_on_diff);
            assert!(a.max_diff.is_none());
        }
        _ => panic!("expected a run"),
    }
}

#[test]
fn parse_args_options() {
    match parse(&["-o", "out.png", "a", "--threshold", "+7", "--diff-only", "b", "--browser", "--fail-on-diff", "--max-diff", "0.5%", "-t", "3"]) {
        Ok(Command::Run(a)) => {
            assert_eq!((a.before.as_str(), a.after.as_str(), a.output.as_str()), ("a", "b", "out.png"));
            assert_eq!(a.threshold, 3);
            assert!(a.diff_only && a.browser && a.fail_on_diff);
            assert_eq!(a.max_diff.as_deref(), Some("0.5%"));
        }
        _ => panic!("expected a run"),
    }
    match parse(&["-", "--output", "-t"]) {
        Ok(Command::Run(_)) => panic!("missing AFTER"),
        Err(ArgError::MissingAfter) => {}
        _ => panic!("expected MissingAfter"),
    }
}

#[test]
fn parse_args_help_wins_when_reached() {
    assert!(matches!(parse(&["a", "-h", "--bogus"]), Ok(Command::Help)));
    assert!(matches!(parse(&["--help"]), Ok(Command::Help)));
    assert!(matches!(parse(&["--bogus", "-h"]), Err(ArgError::UnknownOption(o)) if o == "--bogus"));
}

#[test]
fn parse_args_errors() {
    assert!(matches!(parse(&["a", "b", "-o"]), Err(ArgError::MissingValue(ValueFlag::Output))));
    assert!(matches!(parse(&["-t"]), Err(ArgError::MissingValue(ValueFlag::Threshold))));
    assert!(matches!(parse(&["--max-diff"]), Err(ArgError::MissingValue(ValueFlag::MaxDiff))));
    assert!(matches!(parse(&["-t", "300", "a", "b"]), Err(ArgError::InvalidThreshold(v)) if v == "300"));
    assert!(matches!(parse(&["--max-diff", "nope", "--bogus"]), Err(ArgError::InvalidMaxDiff(v)) if v == "nope"));
    assert!(matches!(parse(&["a", "--bogus"]), Err(ArgError::UnknownOption(v)) if v == "--bogus"));
    assert!(matches!(parse(&["a", "b", "c"]), Err(ArgError::UnexpectedArgument(v)) if v == "c"));
    assert!(matches!(parse(&[]), Err(ArgError::MissingBefore)));
    assert!(matches!(parse(&["a"]), Err(ArgError::MissingAfter)));
}

#[test]
fn swapping_before_and_after_keeps_the_count() {
    let a = image(2, 2, vec![[0, 0, 0, 255], [9, 9, 9, 9], [200, 0, 0, 255], [1, 2, 3, 4]]);
    let b = image(2, 2, vec![[0, 0, 40, 255], [9, 9, 9, 9], [0, 0, 0, 255], [1, 2, 3, 200]]);
    assert_eq!(build_diff(&a, &b, 16).1, 3);
    assert_eq!(build_diff(&b, &a, 16).1, 3);
}

#[test]
fn b64_of_whole_groups_concatenates() {
    assert_eq!(b64(b"foobar"), b64(b"foo") + &b64(b"bar"));
    assert_eq!(b64(b"abcdefg"), b64(b"abcdef") + &b64(b"g"));
    assert_eq!(b64(b"xyz"), b64(b"xyz") + &b64(b""));
}

#[test]
fn b64_tells_inputs_apart() {
    let mut seen = std::collections::HashSet::new();
    for a in 0..=255u8 {
        assert!(seen.insert(b64(&[a])));
        assert!(seen.insert(b64(&[a, 7])));
    }
    assert_ne!(b64(&[0]), b64(&[0, 0]));
}
