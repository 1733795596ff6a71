use pleco_links::{extend_runs, is_hanzi_char, segment, Run};

fn chinese(text: &str) -> Run {
    Run::Chinese(text.to_string())
}

fn other(text: &str) -> Run {
    Run::Other(text.to_string())
}

fn all_text(runs: &[Run]) -> String {
    runs.iter().map(|r| r.text().to_string()).collect()
}

#[test]
fn simplified_chinese_is_hanzi() {
    for c in "你好怎么样中".chars() {
        assert!(is_hanzi_char(c), "{c}");
    }
}

#[test]
fn ascii_is_not_hanzi() {
    for n in 0u8..128 {
        assert!(!is_hanzi_char(n as char));
    }
}

#[test]
fn other_characters_are_not_hanzi() {
    for c in "學éΩあア한😀\u{1f}，。".chars() {
        assert!(!is_hanzi_char(c), "{c}");
    }
}

#[test]
fn the_classes_are_those_of_cjk() {
    let blocks =
        [0x0000u32..=0x03ff, 0x2000..=0x206f, 0x3000..=0x30ff, 0x4e00..=0x9fff, 0xff00..=0xffef];
    let mut chinese = 0;
    for code in blocks.into_iter().flatten() {
        let c = char::from_u32(code).unwrap();
        let class = is_hanzi_char(c);
        assert_eq!(class, cjk::is_simplified_chinese(&c.to_string()), "{code:x}");
        if class {
            chinese += 1;
        }
    }
    assert_eq!(chinese, 6763);
    for c in ['\u{3400}', '\u{ac00}', '\u{f900}', '\u{10000}', '\u{20000}', '\u{10ffff}'] {
        assert_eq!(is_hanzi_char(c), cjk::is_simplified_chinese(&c.to_string()));
    }
}

#[test]
fn empty_text_has_no_runs() {
    assert_eq!(segment(""), Vec::<Run>::new());
}

#[test]
fn text_without_chinese_is_one_run() {
    assert_eq!(segment("hello there"), vec![other("hello there")]);
}

#[test]
fn chinese_text_is_one_run() {
    assert_eq!(segment("你好"), vec![chinese("你好")]);
}

#[test]
fn one_character_is_one_run() {
    assert_eq!(segment("a"), vec![other("a")]);
    assert_eq!(segment("你"), vec![chinese("你")]);
}

#[test]
fn runs_alternate() {
    assert_eq!(
        segment("hello there, 你好, how's it going, 你怎么样"),
        vec![
            other("hello there, "),
            chinese("你好"),
            other(", how's it going, "),
            chinese("你怎么样"),
        ]
    );
    assert_eq!(segment("你a好"), vec![chinese("你"), other("a"), chinese("好")]);
}

#[test]
fn runs_spell_the_text() {
    for text in ["", "a", "你", "a你", "你a", "你好, 學 and 中文!", "\u{1f}你\u{1f}"] {
        let runs = segment(text);
        assert_eq!(all_text(&runs), text);
        assert!(runs.iter().all(|r| !r.text().is_empty()));
        assert!(runs.windows(2).all(|w| w[0].is_chinese() != w[1].is_chinese()));
        assert!(runs.iter().all(|r| r.text().chars().all(|c| is_hanzi_char(c) == r.is_chinese())));
    }
}

#[test]
fn a_character_of_the_same_class_joins_the_last_run() {
    let mut runs = vec![other("ab"), chinese("你")];
    extend_runs(&mut runs, '好', true);
    assert_eq!(runs, vec![other("ab"), chinese("你好")]);
    let mut runs = vec![other("ab")];
    extend_runs(&mut runs, 'c', false);
    assert_eq!(runs, vec![other("abc")]);
}

#[test]
fn a_character_of_the_other_class_starts_a_run() {
    let mut runs = vec![other("ab")];
    extend_runs(&mut runs, '你', true);
    assert_eq!(runs, vec![other("ab"), chinese("你")]);
    extend_runs(&mut runs, '!', false);
    assert_eq!(runs, vec![other("ab"), chinese("你"), other("!")]);
}

#[test]
fn the_first_character_starts_a_run() {
    let mut runs = Vec::new();
    extend_runs(&mut runs, 'x', false);
    assert_eq!(runs, vec![other("x")]);
    let mut runs = Vec::new();
    extend_runs(&mut runs, '你', true);
    assert_eq!(runs, vec![chinese("你")]);
}

#[test]
fn the_class_is_taken_as_given() {
    let mut runs = vec![chinese("你")];
    extend_runs(&mut runs, 'x', true);
    assert_eq!(runs, vec![chinese("你x")]);
}

#[test]
fn a_run_knows_its_tag_and_text() {
    assert!(chinese("你").is_chinese());
    assert!(!other("a").is_chinese());
    assert_eq!(chinese("你好").text(), "你好");
    assert_eq!(other("ab").into_text(), "ab".to_string());
    assert_eq!(Run::new(true, "你".to_string()), chinese("你"));
    assert_eq!(Run::new(false, "a".to_string()), other("a"));
}
