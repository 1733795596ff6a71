use pleco_links::markup::{LINK_CLOSE, LINK_MID, QUERY_END, SPAN_CLOSE};
use pleco_links::text::{has_prefix, same_text};
use pleco_links::{demote_annotated, segment, starts_with_boundary, Run};

fn hz(text: &str) -> Run {
    Run::Chinese(text.to_string())
}

fn plain(text: &str) -> Run {
    Run::Other(text.to_string())
}

#[test]
fn the_three_signatures_are_boundaries() {
    assert!(starts_with_boundary("</a>"));
    assert!(starts_with_boundary("</span>"));
    assert!(starts_with_boundary("\" style"));
    assert!(starts_with_boundary(LINK_CLOSE));
    assert!(starts_with_boundary(SPAN_CLOSE));
    assert!(starts_with_boundary(QUERY_END));
    assert!(starts_with_boundary(LINK_MID));
    assert!(starts_with_boundary("</a>, and more"));
    assert!(starts_with_boundary("</span></a>"));
}

#[test]
fn other_text_is_no_boundary() {
    assert!(!starts_with_boundary(""));
    assert!(!starts_with_boundary("</"));
    assert!(!starts_with_boundary("</b>"));
    assert!(!starts_with_boundary(" </a>"));
    assert!(!starts_with_boundary("<a href"));
    assert!(!starts_with_boundary("<span class=\"tone3\">"));
    assert!(!starts_with_boundary("\" styl"));
    assert!(!starts_with_boundary("\"style"));
    assert!(!starts_with_boundary("</A>"));
}

#[test]
fn a_run_before_a_boundary_loses_its_tag() {
    for signature in ["</a>", "</span>", "\" style"] {
        let mut runs = vec![plain("x"), hz("你好"), plain(signature)];
        demote_annotated(&mut runs);
        assert_eq!(runs, vec![plain("x"), plain("你好"), plain(signature)]);
    }
}

#[test]
fn a_run_before_other_text_keeps_its_tag() {
    let mut runs = vec![hz("你好"), plain(", "), hz("中"), plain(" </a>")];
    demote_annotated(&mut runs);
    assert_eq!(runs, vec![hz("你好"), plain(", "), hz("中"), plain(" </a>")]);
}

#[test]
fn the_last_run_keeps_its_tag() {
    let mut runs = vec![plain("</a>"), hz("你好")];
    demote_annotated(&mut runs);
    assert_eq!(runs, vec![plain("</a>"), hz("你好")]);
    let mut runs = vec![hz("你")];
    demote_annotated(&mut runs);
    assert_eq!(runs, vec![hz("你")]);
}

#[test]
fn no_runs_stay_no_runs() {
    let mut runs: Vec<Run> = Vec::new();
    demote_annotated(&mut runs);
    assert!(runs.is_empty());
}

#[test]
fn only_the_run_behind_counts() {
    let mut runs = vec![hz("你"), hz("</a>"), plain("</a>")];
    demote_annotated(&mut runs);
    assert_eq!(runs, vec![hz("你"), plain("</a>"), plain("</a>")]);
}

#[test]
fn every_run_of_an_annotation_loses_its_tag() {
    let text = r#"<a href="plecoapi://x-callback-url/s?q=你好" style="text-decoration:none"><span class="tone3">你</span>好</a>中"#;
    let mut runs = segment(text);
    assert_eq!(runs.iter().filter(|r| r.is_chinese()).count(), 4);
    demote_annotated(&mut runs);
    assert_eq!(runs.iter().filter(|r| r.is_chinese()).count(), 1);
    assert_eq!(runs.last(), Some(&hz("中")));
    let spelled: String = runs.iter().map(|r| r.text().to_string()).collect();
    assert_eq!(spelled, text);
}

#[test]
fn prefixes_are_told_apart() {
    assert!(has_prefix("hello", ""));
    assert!(has_prefix("hello", "hel"));
    assert!(has_prefix("hello", "hello"));
    assert!(!has_prefix("hello", "hello!"));
    assert!(!has_prefix("hello", "help"));
    assert!(!has_prefix("", "a"));
    assert!(has_prefix("", ""));
    assert!(has_prefix("你好吗", "你好"));
    assert!(!has_prefix("你好吗", "好"));
}

#[test]
fn equal_texts_are_told_apart() {
    assert!(same_text("", ""));
    assert!(same_text("你好", "你好"));
    assert!(!same_text("你好", "你"));
    assert!(!same_text("你", "你好"));
    assert!(!same_text("ab", "ac"));
}
