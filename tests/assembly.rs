use code_to_pdf::code_to_pdf::{Op, Page};
use code_to_pdf::document::{entry_order, DocumentSubset};
use code_to_pdf::font_loader::{font_source, is_path, load_font, FontSource};
use code_to_pdf::highlight::{highlight_source_line, plain_run, HighlighterConfig, MAX_LINE_LEN_TO_HIGHLIGHT};
use code_to_pdf::logging::{enabled, LogAction, LoggerMessage};
use std::cmp::Ordering;
use syntect::easy::HighlightLines;
use syntect::highlighting::ThemeSet;
use syntect::parsing::SyntaxSet;

fn page(ordinal: usize, text: &str) -> Page {
    Page { ops: vec![Op::WriteText(text.to_string())], ordinal }
}

#[test]
fn merge_orders_by_file_and_keeps_each_files_order() {
    let mut doc = DocumentSubset::new();
    doc.add_pages(vec![page(2, "c1"), page(0, "a1")]);
    doc.add_pages(vec![page(1, "b1"), page(2, "c2")]);
    doc.add_pages(vec![page(0, "a2"), page(1, "b2")]);
    let (images, pages) = doc.to_document();
    assert!(images.is_empty());
    let texts: Vec<Op> = pages.iter().map(|p| p.ops[0].clone()).collect();
    let expected: Vec<Op> =
        ["a1", "a2", "b1", "b2", "c1", "c2"].iter().map(|t| Op::WriteText(t.to_string())).collect();
    assert_eq!(texts, expected);
}

#[test]
fn concurrent_order_matches_sequential_order() {
    let sequential = vec![page(0, "a1"), page(0, "a2"), page(1, "b1"), page(3, "d1"), page(3, "d2")];
    let interleavings = [
        vec![page(3, "d1"), page(1, "b1"), page(0, "a1"), page(3, "d2"), page(0, "a2")],
        vec![page(0, "a1"), page(3, "d1"), page(3, "d2"), page(0, "a2"), page(1, "b1")],
        sequential.clone(),
    ];
    for pages in interleavings {
        let mut doc = DocumentSubset::new();
        doc.add_pages(pages);
        assert_eq!(doc.to_document().1, sequential);
    }
}

#[test]
fn empty_subset_gives_empty_document() {
    let (images, pages) = DocumentSubset::new().to_document();
    assert!(images.is_empty() && pages.is_empty());
}

#[test]
fn files_come_before_directories() {
    assert_eq!(entry_order(false, true), Ordering::Less);
    assert_eq!(entry_order(true, false), Ordering::Greater);
    assert_eq!(entry_order(true, true), Ordering::Equal);
    assert_eq!(entry_order(false, false), Ordering::Equal);
}

#[test]
fn font_names_and_paths() {
    assert!(is_path("fonts/Mono.ttf"));
    assert!(is_path(".hidden"));
    assert!(is_path("a-very-long-family-name-that-goes-on"));
    assert!(!is_path("Helvetica"));
    assert!(matches!(font_source(None), FontSource::Bundled));
    assert!(matches!(font_source(Some("x.otf".to_string())), FontSource::Path(p) if p == "x.otf"));
    assert!(matches!(font_source(Some("Arial".to_string())), FontSource::System(f) if f == "Arial"));
}

#[test]
fn font_falls_back_to_bundled() {
    assert_eq!(load_font(Some(vec![1, 2]), vec![9]), (vec![1, 2], false));
    assert_eq!(load_font(None, vec![9]), (vec![9], true));
}

#[test]
fn logger_actions() {
    assert!(matches!(LoggerMessage::Message("hi".to_string()).action(), LogAction::Print(m) if m == "hi"));
    assert!(matches!(LoggerMessage::Complete.action(), LogAction::Wait));
    assert!(matches!(LoggerMessage::Abort.action(), LogAction::Stop));
    assert!(enabled("c2pdf"));
    assert!(!enabled("c2pd"));
    assert!(!enabled("syntect"));
}

#[test]
fn highlighted_runs_rebuild_the_line() {
    let config = HighlighterConfig::new(SyntaxSet::load_defaults_newlines(), ThemeSet::load_defaults().themes["InspiredGitHub"].clone());
    let syntax = config.syntax_set.find_syntax_by_extension("rs").unwrap();
    let mut h = HighlightLines::new(syntax, &config.theme);
    let line = "fn main() { let x = \"hi\"; }\n";
    let runs = highlight_source_line(&mut h, &config, line).ok().unwrap();
    assert!(runs.len() > 1);
    let joined: String = runs.iter().map(|r| r.text.clone()).collect();
    assert_eq!(joined, line);
    assert!(runs.iter().any(|r| r.color != runs[0].color));
}

#[test]
fn overlong_line_is_one_plain_run() {
    let config = HighlighterConfig::new(SyntaxSet::load_defaults_newlines(), ThemeSet::load_defaults().themes["InspiredGitHub"].clone());
    let syntax = config.syntax_set.find_syntax_by_extension("rs").unwrap();
    let mut h = HighlightLines::new(syntax, &config.theme);
    let line = "a".repeat(MAX_LINE_LEN_TO_HIGHLIGHT);
    let runs = highlight_source_line(&mut h, &config, &line).ok().unwrap();
    assert_eq!(runs, vec![plain_run(&line)]);
    assert_eq!(runs[0].text.len(), 20_000);
}
