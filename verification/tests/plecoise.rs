use pleco_links::{plecoise, Dictionary, Pronunciation, Tone};

fn tones(classes: &[u8]) -> Pronunciation {
    Pronunciation::new(classes.iter().map(|n| Tone::from_class(*n).unwrap()).collect())
}

fn sample_dictionary() -> Dictionary {
    let mut dict = Dictionary::new();
    dict.insert("你好", tones(&[3, 3]));
    dict.insert("你怎么样", tones(&[3, 3, 5, 4]));
    dict
}

const PLAIN_LINK: &str =
    r#"hello there, <a href="plecoapi://x-callback-url/s?q=你好" style="text-decoration:none">你好</a>"#;

const TONED_LINK: &str = r#"hello there, <a href="plecoapi://x-callback-url/s?q=你好" style="text-decoration:none"><span class="tone3">你</span><span class="tone3">好</span></a>"#;

#[test]
fn test_plecoise() {
    let dict = sample_dictionary();
    assert_eq!(plecoise("hello there", &dict), "hello there".to_string());
    assert_eq!(
        plecoise("hello there, 你好", &dict),
        r#"hello there, <a href="plecoapi://x-callback-url/s?q=你好" style="text-decoration:none"><span class="tone3">你</span><span class="tone3">好</span></a>"#.to_string());
    assert_eq!(
        plecoise("hello there, 你好, how's it going, 你怎么样", &dict),
        r#"hello there, <a href="plecoapi://x-callback-url/s?q=你好" style="text-decoration:none"><span class="tone3">你</span><span class="tone3">好</span></a>, how's it going, <a href="plecoapi://x-callback-url/s?q=你怎么样" style="text-decoration:none"><span class="tone3">你</span><span class="tone3">怎</span><span class="tone5">么</span><span class="tone4">样</span></a>"#.to_string());
    assert_eq!(
        plecoise(r#"hello there, <a href="plecoapi://x-callback-url/s?q=你好" style="text-decoration:none">你好</a>"#, &dict),
        r#"hello there, <a href="plecoapi://x-callback-url/s?q=你好" style="text-decoration:none">你好</a>"#.to_string());
    assert_eq!(
        plecoise(r#"hello there, <a href="plecoapi://x-callback-url/s?q=你好" style="text-decoration:none"><span class="tone3">你</span><span class="tone3">好</span></a>"#, &dict),
        r#"hello there, <a href="plecoapi://x-callback-url/s?q=你好" style="text-decoration:none"><span class="tone3">你</span><span class="tone3">好</span></a>"#.to_string());
    assert_eq!(
        plecoise(r#"hello there, <a href="plecoapi://x-callback-url/s?q=你好" style="text-decoration:none">你好</a>, how's it going, 你怎么样"#, &dict),
        r#"hello there, <a href="plecoapi://x-callback-url/s?q=你好" style="text-decoration:none">你好</a>, how's it going, <a href="plecoapi://x-callback-url/s?q=你怎么样" style="text-decoration:none"><span class="tone3">你</span><span class="tone3">怎</span><span class="tone5">么</span><span class="tone4">样</span></a>"#.to_string());
}

#[test]
fn plain_text_is_unchanged() {
    let dict = sample_dictionary();
    assert_eq!(plecoise("hello there", &dict), "hello there");
}

#[test]
fn empty_text_gives_empty_text() {
    assert_eq!(plecoise("", &sample_dictionary()), "");
    assert_eq!(plecoise("", &Dictionary::new()), "");
}

#[test]
fn chinese_without_a_dictionary_is_linked_bare() {
    let dict = Dictionary::new();
    assert_eq!(plecoise("hello there, 你好", &dict), PLAIN_LINK);
}

#[test]
fn chinese_in_the_dictionary_is_linked_in_colour() {
    assert_eq!(plecoise("hello there, 你好", &sample_dictionary()), TONED_LINK);
}

#[test]
fn a_word_the_dictionary_lacks_is_linked_bare() {
    let dict = sample_dictionary();
    assert_eq!(
        plecoise("好你", &dict),
        r#"<a href="plecoapi://x-callback-url/s?q=好你" style="text-decoration:none">好你</a>"#
    );
}

#[test]
fn the_run_is_looked_up_whole() {
    let mut dict = Dictionary::new();
    dict.insert("你", tones(&[3]));
    dict.insert("好", tones(&[3]));
    assert_eq!(
        plecoise("你好", &dict),
        r#"<a href="plecoapi://x-callback-url/s?q=你好" style="text-decoration:none">你好</a>"#
    );
}

#[test]
fn linked_text_is_left_alone() {
    let dict = sample_dictionary();
    assert_eq!(plecoise(PLAIN_LINK, &dict), PLAIN_LINK);
    assert_eq!(plecoise(TONED_LINK, &dict), TONED_LINK);
    assert_eq!(plecoise(PLAIN_LINK, &Dictionary::new()), PLAIN_LINK);
    assert_eq!(plecoise(TONED_LINK, &Dictionary::new()), TONED_LINK);
}

#[test]
fn only_the_fresh_run_is_linked() {
    let dict = sample_dictionary();
    let text = format!("{PLAIN_LINK}, how's it going, 你怎么样");
    let expected = format!(
        "{PLAIN_LINK}, how's it going, {}",
        r#"<a href="plecoapi://x-callback-url/s?q=你怎么样" style="text-decoration:none"><span class="tone3">你</span><span class="tone3">怎</span><span class="tone5">么</span><span class="tone4">样</span></a>"#
    );
    assert_eq!(plecoise(&text, &dict), expected);
}

#[test]
fn chinese_at_both_ends_is_linked() {
    let dict = Dictionary::new();
    assert_eq!(
        plecoise("你 and 好", &dict),
        concat_link("你") + " and " + &concat_link("好")
    );
}

fn concat_link(word: &str) -> String {
    format!(
        r#"<a href="plecoapi://x-callback-url/s?q={word}" style="text-decoration:none">{word}</a>"#
    )
}

#[test]
fn traditional_characters_are_not_linked() {
    let dict = Dictionary::new();
    assert_eq!(plecoise("學", &dict), "學");
}

#[test]
fn other_scripts_are_not_linked() {
    let dict = sample_dictionary();
    let text = "café, naïve, Ωμέγα, ひらがな, 한국어, 😀";
    assert_eq!(plecoise(text, &dict), text);
}

#[test]
fn a_boundary_signature_behind_chinese_keeps_it_bare() {
    let dict = sample_dictionary();
    assert_eq!(plecoise("你好</a>", &dict), "你好</a>");
    assert_eq!(plecoise("你好</span>", &dict), "你好</span>");
    assert_eq!(plecoise("你好\" style", &dict), "你好\" style");
}

#[test]
fn markup_that_is_no_signature_does_not_keep_chinese_bare() {
    let dict = Dictionary::new();
    assert_eq!(plecoise("你好<b>", &dict), concat_link("你好") + "<b>");
    assert_eq!(plecoise("你好 </a>", &dict), concat_link("你好") + " </a>");
}
