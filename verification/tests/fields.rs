use pleco_links::{
    is_collection, plecoise, plecoise_fields, Dictionary, Pronunciation, Tone, FIELD_SPLIT_CHAR,
};

fn fields_dictionary() -> Dictionary {
    let mut dict = Dictionary::new();
    let third = || Tone::from_class(3).unwrap();
    dict.insert("你好", Pronunciation::new(vec![third(), third()]));
    dict
}

fn link(word: &str, inner: &str) -> String {
    format!(
        r#"<a href="plecoapi://x-callback-url/s?q={word}" style="text-decoration:none">{inner}</a>"#
    )
}

#[test]
fn the_delimiter_is_the_unit_separator() {
    assert_eq!(FIELD_SPLIT_CHAR, '\u{1f}');
}

#[test]
fn a_text_without_delimiter_is_one_field() {
    let dict = fields_dictionary();
    assert_eq!(plecoise_fields("", &dict), "");
    assert_eq!(plecoise_fields("hello", &dict), "hello");
    assert_eq!(plecoise_fields("中 x", &dict), plecoise("中 x", &dict));
}

#[test]
fn each_field_is_transformed() {
    let dict = fields_dictionary();
    let toned = link("你好", r#"<span class="tone3">你</span><span class="tone3">好</span>"#);
    assert_eq!(
        plecoise_fields("你好\u{1f}hello\u{1f}中", &dict),
        format!("{toned}\u{1f}hello\u{1f}{}", link("中", "中"))
    );
}

#[test]
fn chinese_on_both_sides_of_a_delimiter_is_two_words() {
    let dict = fields_dictionary();
    assert_eq!(
        plecoise_fields("你\u{1f}好", &dict),
        format!("{}\u{1f}{}", link("你", "你"), link("好", "好"))
    );
}

#[test]
fn empty_fields_stay() {
    let dict = fields_dictionary();
    assert_eq!(plecoise_fields("\u{1f}", &dict), "\u{1f}");
    assert_eq!(plecoise_fields("\u{1f}\u{1f}a\u{1f}", &dict), "\u{1f}\u{1f}a\u{1f}");
    assert_eq!(
        plecoise_fields("\u{1f}中\u{1f}", &dict),
        format!("\u{1f}{}\u{1f}", link("中", "中"))
    );
}

#[test]
fn a_field_does_not_seal_the_field_before_it() {
    let dict = Dictionary::new();
    assert_eq!(
        plecoise_fields("中\u{1f}</a>", &dict),
        format!("{}\u{1f}</a>", link("中", "中"))
    );
}

#[test]
fn the_fields_are_those_of_split_and_join() {
    let dict = fields_dictionary();
    let texts = ["", "a", "\u{1f}", "你好\u{1f}b\u{1f}\u{1f}中文 c", "x\u{1f}你好</a>\u{1f}"];
    for text in texts {
        let expected: Vec<String> =
            text.split(FIELD_SPLIT_CHAR).map(|field| plecoise(field, &dict)).collect();
        assert_eq!(plecoise_fields(text, &dict), expected.join("\u{1f}"));
    }
}

#[test]
fn the_collection_files_hold_the_notes() {
    assert!(is_collection("collection.anki2"));
    assert!(is_collection("collection.anki21"));
    assert!(is_collection("collection"));
    assert!(!is_collection("media"));
    assert!(!is_collection("0"));
    assert!(!is_collection(""));
    assert!(!is_collection("collectio"));
    assert!(!is_collection("Collection.anki2"));
    assert!(!is_collection("my collection"));
}
