use herdr_annotate::width::{char_width, graphemes, string_width, truncate_to_width};

#[test]
fn character_widths_match_the_typescript_ranges() {
    for character in ['한', 'ㄱ', '漢', 'あ', 'Ａ'] {
        assert_eq!(char_width(character), 2);
    }
    for character in ['a', '·'] {
        assert_eq!(char_width(character), 1);
    }
    assert_eq!(char_width('\u{0007}'), 0);
}

#[test]
fn string_width_adds_character_cells() {
    assert_eq!(string_width("한글abc"), 7);
    assert_eq!(string_width(""), 0);
    for text in ["🇺🇸", "👨‍👩‍👧‍👦", "1️⃣"] {
        assert_eq!(string_width(text), 2);
    }
}

#[test]
fn truncation_never_splits_wide_characters() {
    assert_eq!(truncate_to_width("한글", 3), "한");
    assert_eq!(truncate_to_width("한글", 4), "한글");
    assert_eq!(truncate_to_width("한", 0), "");
    assert_eq!(truncate_to_width("🇺🇸x", 2), "🇺🇸");
}

#[test]
fn truncation_stops_at_the_first_cluster_that_does_not_fit() {
    assert_eq!(truncate_to_width("ab한c", 3), "ab");
    assert_eq!(truncate_to_width("abc", 10), "abc");
    assert_eq!(truncate_to_width("", 5), "");
    let text = "a\u{301}bc";
    assert_eq!(truncate_to_width(text, 1), "a\u{301}");
}

#[test]
fn clusters_spell_the_text() {
    let text = "a\u{301}🇺🇸\r\nx";
    let clusters = graphemes(text);
    assert_eq!(clusters, ["a\u{301}", "🇺🇸", "\r\n", "x"]);
    assert_eq!(clusters.concat(), text);
}
