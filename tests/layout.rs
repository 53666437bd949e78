use code_to_pdf::code_to_pdf::{
    file_kind_of, image_placement_for, CodeToPdf, FileKind, ImagePlacement, Op, Page, PixelPoint,
    ProcessedText, Rgb, StyledRun,
};
use code_to_pdf::dimensions::{to_millipoints, Dimensions};
use code_to_pdf::text_manipulation::{is_whitespace, TextWrapper};

const TEXT: &str = "Hello World!! This is a vaguely long string to test string splitting!";

/// Advances: 5 pt for a space, 11 pt for anything else.
fn measured(txt: &str) -> TextWrapper {
    let mut w = TextWrapper::new(20_000);
    for c in w.missing_chars(txt) {
        w.set_advance(c, if c == ' ' { 5_000 } else { 11_000 });
    }
    w
}

fn measure_all(b: &mut CodeToPdf, txt: &str, adv: u32) {
    for c in b.missing_chars(txt) {
        b.set_advance(c, adv);
    }
}

fn squeeze(s: &str) -> String {
    s.chars().filter(|c| !c.is_whitespace()).collect()
}

fn builder(page_text: Option<ProcessedText>, include_path: bool) -> CodeToPdf {
    CodeToPdf::new(Dimensions::default(), TextWrapper::new(12_000), page_text, include_path)
}

fn body_header() -> Vec<Op> {
    vec![
        Op::StartTextSection,
        Op::SetLineHeight(14_400),
        Op::SetFontSize(12_000),
        Op::ResetTextMatrix,
        Op::SetTextCursor(28_346, 785_196),
        Op::SetFillTextRendering,
    ]
}

fn run(text: &str) -> StyledRun {
    StyledRun { color: Rgb { r: 10, g: 20, b: 30 }, text: text.to_string() }
}

#[test]
fn wrap_example_is_reproducible() {
    let w = measured(TEXT);
    let lines = w.split_into_lines(TEXT, 100_000, 100_000);
    assert_eq!(lines.len(), 9);
    assert_eq!(lines, w.split_into_lines(TEXT, 100_000, 100_000));
    let joined: String = lines.iter().map(|l| l.0.clone()).collect();
    assert_eq!(squeeze(&joined), squeeze(TEXT));
    assert_eq!(lines[0], ("Hello Wor".to_string(), 93_000));
    assert_eq!(lines[3], ("ely long".to_string(), 82_000));
    assert_eq!(lines[8], ("g!".to_string(), 22_000));
}

#[test]
fn wrapped_lines_fit_their_bound() {
    let w = measured(TEXT);
    for (max, first) in [(60_000u64, 20_000u64), (100_000, 100_000), (250_000, 40_000)] {
        let lines = w.split_into_lines(TEXT, first, max);
        for (k, (text, width)) in lines.iter().enumerate() {
            let bound = if k == 0 { first } else { max };
            assert!(*width < bound || text.chars().count() <= 1);
        }
        let joined: String = lines.iter().map(|l| l.0.clone()).collect();
        assert_eq!(squeeze(&joined), squeeze(TEXT));
    }
}

#[test]
fn empty_text_gives_one_empty_line() {
    let w = TextWrapper::new(12_000);
    assert_eq!(w.split_into_lines("", 100_000, 100_000), vec![(String::new(), 0)]);
}

#[test]
fn first_line_has_its_own_bound() {
    let mut w = TextWrapper::new(12_000);
    for c in w.missing_chars("abcdefghijklmnopqrstuvwxyz") {
        w.set_advance(c, 11_000);
    }
    let lines = w.split_into_lines("abcdefghijklmnopqrstuvwxyz", 50_000, 100_000);
    let texts: Vec<&str> = lines.iter().map(|l| l.0.as_str()).collect();
    assert_eq!(texts, vec!["abcd", "efghijklm", "nopqrstuv", "wxyz"]);
    assert_eq!(lines[1].1, 99_000);
}

#[test]
fn glyph_wider_than_the_line_stands_alone() {
    let mut w = TextWrapper::new(12_000);
    w.set_advance('a', 200_000);
    w.set_advance('b', 200_000);
    let lines = w.split_into_lines("ab", 100_000, 100_000);
    assert_eq!(
        lines,
        vec![(String::new(), 0), ("a".to_string(), 200_000), ("b".to_string(), 200_000)]
    );
}

#[test]
fn width_is_the_sum_of_advances() {
    let w = measured(TEXT);
    assert_eq!(w.get_width("Hi there"), 7 * 11_000 + 5_000);
    assert_eq!(w.get_width(""), 0);
    assert_eq!(w.missing_chars("Hi"), Vec::<char>::new());
    assert_eq!(w.missing_chars("Hiz"), vec!['z']);
}

#[test]
fn whitespace_follows_unicode() {
    for c in [' ', '\t', '\n', '\u{a0}', '\u{2003}', '\u{3000}'] {
        assert!(is_whitespace(c));
    }
    for c in ['a', '_', '\u{200b}'] {
        assert!(!is_whitespace(c));
    }
}

#[test]
fn dimensions_leave_the_text_area() {
    let d = Dimensions::default();
    assert_eq!(d.max_text_width(), 190_000);
    assert_eq!(d.max_text_height(), 272_000);
    let d = Dimensions::new_default_margins(100_000, 150_000);
    assert_eq!((d.margin_top, d.margin_bottom, d.margin_left, d.margin_right), (20_000, 5_000, 10_000, 10_000));
    let d = Dimensions::new(100_000, 200_000, 1_000, 2_000, 3_000, 4_000);
    assert_eq!(d.max_text_width(), 93_000);
    assert_eq!(d.max_text_height(), 197_000);
    assert_eq!(to_millipoints(25_400), 72_000);
}

#[test]
fn lines_per_page_at_twelve_points() {
    assert_eq!(builder(None, false).max_lines_per_page(), 53);
}

#[test]
fn larger_font_fits_fewer_lines() {
    let mut last = u64::MAX;
    for size in [6_000u32, 10_000, 12_000, 12_500, 20_000, 72_000] {
        let b = CodeToPdf::new(Dimensions::default(), TextWrapper::new(size), None, false);
        let n = b.max_lines_per_page();
        assert!(n <= last);
        last = n;
    }
    let small = CodeToPdf::new(Dimensions::default(), TextWrapper::new(10_000), None, false);
    assert_eq!(small.max_lines_per_page(), 64);
}

#[test]
fn empty_file_gives_no_page() {
    let mut b = builder(None, true);
    measure_all(&mut b, "src/empty.rs", 6_000);
    assert_eq!(b.process_file("src/empty.rs"), FileKind::Text);
    b.begin_text_file("src/empty.rs", 4);
    b.end_file();
    assert_eq!(b.take_pages(), Vec::<Page>::new());
    assert_eq!(b.processed_file_count(), 1);
}

#[test]
fn one_line_gives_one_page() {
    let mut b = builder(None, false);
    measure_all(&mut b, "hi", 6_000);
    b.begin_text_file("a.rs", 3);
    b.push_line(&vec![run("hi")]);
    b.end_file();
    let mut ops = body_header();
    ops.extend([Op::SetFillColor(Rgb { r: 10, g: 20, b: 30 }), Op::WriteText("hi".to_string()), Op::AddLineBreak]);
    assert_eq!(b.take_pages(), vec![Page { ops, ordinal: 3 }]);
}

#[test]
fn full_page_starts_another() {
    let mut b = builder(None, false);
    measure_all(&mut b, "a", 6_000);
    b.begin_text_file("a.rs", 0);
    for _ in 0..60 {
        b.push_line(&vec![run("a")]);
    }
    b.end_file();
    let pages = b.take_pages();
    assert_eq!(pages.len(), 2);
    let count = |p: &Page| p.ops.iter().filter(|o| **o == Op::WriteText("a".to_string())).count();
    assert_eq!(count(&pages[0]), 54);
    assert_eq!(count(&pages[1]), 6);
    assert!(pages.iter().all(|p| p.ordinal == 0));
    assert_eq!(pages[1].ops[..6].to_vec(), body_header());
}

#[test]
fn long_run_wraps_onto_continuation_lines() {
    let mut b = builder(None, false);
    let long = "x".repeat(100);
    measure_all(&mut b, &long, 10_000);
    b.begin_text_file("a.rs", 0);
    b.push_line(&vec![run(&long)]);
    b.end_file();
    let pages = b.take_pages();
    let mut ops = body_header();
    ops.extend([
        Op::SetFillColor(Rgb { r: 10, g: 20, b: 30 }),
        Op::WriteText("x".repeat(53)),
        Op::AddLineBreak,
        Op::WriteText("x".repeat(47)),
        Op::AddLineBreak,
    ]);
    assert_eq!(pages, vec![Page { ops, ordinal: 0 }]);
}

#[test]
fn header_holds_caption_and_path() {
    let mut w = TextWrapper::new(12_000);
    for c in w.missing_chars("Top\nSecret") {
        w.set_advance(c, 6_000);
    }
    let caption = ProcessedText::new("Top\nSecret".to_string(), &w).unwrap();
    let mut b = CodeToPdf::new(Dimensions::default(), w, Some(caption), true);
    measure_all(&mut b, "src/main.rs", 6_000);
    b.begin_text_file("src/main.rs", 1);
    b.push_line(&vec![]);
    b.end_file();
    let pages = b.take_pages();
    let expected = vec![
        Op::StartTextSection,
        Op::SetLineHeight(14_400),
        Op::SetFontSize(12_000),
        Op::ResetTextMatrix,
        Op::SetTextCursor(566_929 - 36_000, 841_889 - 21_259),
        Op::WriteText("Top".to_string()),
        Op::AddLineBreak,
        Op::WriteText("Secret".to_string()),
        Op::AddLineBreak,
        Op::ResetTextMatrix,
        Op::SetTextCursor(28_346, 841_889 - 21_259),
        Op::WriteText("src/main.rs".to_string()),
        Op::AddLineBreak,
        Op::ResetTextMatrix,
        Op::SetTextCursor(28_346, 785_196),
        Op::SetFillTextRendering,
        Op::AddLineBreak,
    ];
    assert_eq!(pages[0].ops, expected);
}

#[test]
fn caption_needs_a_line() {
    let w = TextWrapper::new(12_000);
    assert!(ProcessedText::new(String::new(), &w).is_none());
}

#[test]
fn images_are_told_apart_by_extension() {
    assert_eq!(file_kind_of("photos/cat.png"), FileKind::Image);
    assert_eq!(file_kind_of("a/b.jpeg"), FileKind::Image);
    assert_eq!(file_kind_of("x.webp"), FileKind::Image);
    assert_eq!(file_kind_of("main.rs"), FileKind::Text);
    assert_eq!(file_kind_of("README"), FileKind::Text);
    assert_eq!(file_kind_of(".png"), FileKind::Text);
    assert_eq!(file_kind_of("x.PNG"), FileKind::Text);
}

#[test]
fn wide_images_are_turned() {
    let d = Dimensions::default();
    assert!(image_placement_for(&d, 1_000, 700).rotation_center.is_some());
    assert!(image_placement_for(&d, 1_251, 1_000).rotation_center.is_some());
    assert!(image_placement_for(&d, 1_250, 1_000).rotation_center.is_none());
    assert!(image_placement_for(&d, 1_000, 1_000).rotation_center.is_none());
    assert!(image_placement_for(&d, 500, 2_000).rotation_center.is_none());
}

#[test]
fn image_scale_fills_the_tighter_side() {
    let d = Dimensions::default();
    assert_eq!(
        image_placement_for(&d, 1_000, 1_000),
        ImagePlacement { scale_num: 2_480, scale_den: 1_000, rotation_center: None }
    );
    assert_eq!(
        image_placement_for(&d, 1_000, 2_000),
        ImagePlacement { scale_num: 3_507, scale_den: 2_000, rotation_center: None }
    );
    assert_eq!(
        image_placement_for(&d, 2_000, 1_000),
        ImagePlacement {
            scale_num: 2_480,
            scale_den: 2_000,
            rotation_center: Some(PixelPoint { x: 1_240, y: 620 }),
        }
    );
}

#[test]
fn image_page_is_header_and_image() {
    let mut b = builder(None, false);
    b.emit_image_page("cat.png", 7, 2, 1_000, 1_000);
    let mut ops = body_header();
    ops.push(Op::UseImage(2, ImagePlacement { scale_num: 2_480, scale_den: 1_000, rotation_center: None }));
    assert_eq!(b.take_pages(), vec![Page { ops, ordinal: 7 }]);
}

#[test]
fn wrapped_run_continues_on_a_new_page() {
    let mut b = builder(None, false);
    let long = "x".repeat(100);
    measure_all(&mut b, &long, 10_000);
    measure_all(&mut b, "a", 6_000);
    b.begin_text_file("a.rs", 5);
    for _ in 0..53 {
        b.push_line(&vec![run("a")]);
    }
    b.push_line(&vec![run(&long)]);
    b.end_file();
    let pages = b.take_pages();
    assert_eq!(pages.len(), 2);
    let first = &pages[0].ops;
    assert_eq!(
        first[first.len() - 2..].to_vec(),
        vec![Op::SetFillColor(Rgb { r: 10, g: 20, b: 30 }), Op::WriteText("x".repeat(53))]
    );
    let mut second = body_header();
    second.extend([Op::WriteText("x".repeat(47)), Op::AddLineBreak]);
    assert_eq!(pages[1], Page { ops: second, ordinal: 5 });
}

#[test]
fn long_path_wraps_in_the_header() {
    let mut b = builder(None, true);
    let path = "d/".repeat(40) + "file.rs";
    measure_all(&mut b, &path, 10_000);
    b.begin_text_file(&path, 0);
    b.push_line(&vec![]);
    b.end_file();
    let ops = &b.take_pages()[0].ops;
    let written: Vec<String> = ops
        .iter()
        .filter_map(|o| if let Op::WriteText(t) = o { Some(t.clone()) } else { None })
        .collect();
    assert_eq!(written.len(), 2);
    assert_eq!(written.concat(), path);
    assert_eq!(written[0].chars().count(), 53);
}
