use herdr_annotate::layout::{cursor_at_visual_position, editor_viewport_start, layout_comment};

#[test]
fn cursor_columns_count_terminal_cells() {
    let wide = "한글".chars().collect::<Vec<_>>();
    assert_eq!(layout_comment(&wide, wide.len(), 40).cursor_col, 4);
    let narrow = "abc".chars().collect::<Vec<_>>();
    assert_eq!(layout_comment(&narrow, narrow.len(), 40).cursor_col, 3);
    let mixed = "a한b".chars().collect::<Vec<_>>();
    assert_eq!(layout_comment(&mixed, mixed.len(), 40).cursor_col, 4);
    assert_eq!(layout_comment(&mixed, 2, 40).cursor_col, 3);
}

#[test]
fn wide_characters_do_not_straddle_the_edge() {
    let comment = "한글한".chars().collect::<Vec<_>>();
    let result = layout_comment(&comment, comment.len(), 5);
    assert_eq!(result.lines, ["한글", "한"]);
    assert_eq!((result.cursor_row, result.cursor_col), (1, 2));
}

#[test]
fn explicit_newlines_are_preserved() {
    let comment = "한\n글".chars().collect::<Vec<_>>();
    let result = layout_comment(&comment, comment.len(), 40);
    assert_eq!(result.lines, ["한", "글"]);
    assert_eq!((result.cursor_row, result.cursor_col), (1, 2));
}

#[test]
fn emoji_graphemes_occupy_terminal_cells() {
    for text in ["🇺🇸", "👨‍👩‍👧‍👦", "1️⃣"] {
        let comment = text.chars().collect::<Vec<_>>();
        assert_eq!(layout_comment(&comment, comment.len(), 40).cursor_col, 2);
    }
}

#[test]
fn cursor_mapping_uses_glyph_cell_boundaries_and_wraps() {
    let comment = "a한b".chars().collect::<Vec<_>>();
    assert_eq!(cursor_at_visual_position(&comment, 0, 0, 3), 0);
    assert_eq!(cursor_at_visual_position(&comment, 0, 1, 3), 1);
    assert_eq!(cursor_at_visual_position(&comment, 0, 2, 3), 2);
    assert_eq!(cursor_at_visual_position(&comment, 0, 3, 3), 2);
    assert_eq!(cursor_at_visual_position(&comment, 1, 0, 3), 2);
}

#[test]
fn cursor_mapping_keeps_combining_marks_with_their_base_glyph() {
    let narrow = "a\u{301}b".chars().collect::<Vec<_>>();
    assert_eq!(cursor_at_visual_position(&narrow, 0, 1, 8), 2);
    let wide = "한\u{301}b".chars().collect::<Vec<_>>();
    assert_eq!(cursor_at_visual_position(&wide, 0, 1, 8), 2);
}

#[test]
fn cursor_mapping_returns_only_emoji_grapheme_boundaries() {
    for text in ["🇺🇸", "👨‍👩‍👧‍👦", "1️⃣"] {
        let comment = format!("{text}x").chars().collect::<Vec<_>>();
        let boundary = text.chars().count();
        assert_eq!(cursor_at_visual_position(&comment, 0, 0, 40), 0);
        assert_eq!(cursor_at_visual_position(&comment, 0, 1, 40), boundary);
    }
}

#[test]
fn viewport_start_preserves_visible_cursor_rows() {
    assert_eq!(editor_viewport_start(3, 3, 5, 2), 3);
    assert_eq!(editor_viewport_start(3, 2, 5, 2), 2);
    assert_eq!(editor_viewport_start(1, 4, 5, 2), 3);
}

#[test]
fn cursor_mapping_preserves_explicit_newlines_and_blank_rows() {
    let comment = "a\n\nb".chars().collect::<Vec<_>>();
    assert_eq!(cursor_at_visual_position(&comment, 0, 4, 8), 1);
    assert_eq!(cursor_at_visual_position(&comment, 1, 0, 8), 2);
    assert_eq!(cursor_at_visual_position(&comment, 2, 0, 8), 3);
    assert_eq!(cursor_at_visual_position(&comment, 2, 1, 8), 4);
    assert_eq!(cursor_at_visual_position(&comment, 3, 0, 8), comment.len());
}

#[test]
fn cursor_mapping_reaches_a_full_width_line_end() {
    let comment = "abcdefghijklmnop".chars().collect::<Vec<_>>();
    assert_eq!(
        cursor_at_visual_position(&comment, 0, 16, 16),
        comment.len()
    );
}

#[test]
fn laid_out_rows_hold_every_glyph_in_order() {
    let comment = "ab\ncd한글ef".chars().collect::<Vec<_>>();
    let result = layout_comment(&comment, 0, 3);
    assert_eq!(result.lines.concat(), "abcd한글ef");
    assert_eq!(result.lines, ["ab", "cd", "한", "글e", "f"]);
    assert!(result.cursor_row < result.lines.len());
    assert_eq!((result.cursor_row, result.cursor_col), (0, 0));
}

#[test]
fn an_empty_comment_is_one_empty_row() {
    let result = layout_comment(&[], 0, 0);
    assert_eq!(result.lines, [""]);
    assert_eq!((result.cursor_row, result.cursor_col), (0, 0));
}

#[test]
fn the_viewport_keeps_the_cursor_visible() {
    assert_eq!(editor_viewport_start(0, 0, 0, 0), 0);
    assert_eq!(editor_viewport_start(10, 1, 3, 5), 0);
    assert_eq!(editor_viewport_start(0, 9, 10, 1), 9);
    for start in 0..6 {
        for cursor in 0..6 {
            let top = editor_viewport_start(start, cursor, 6, 3);
            assert!(top <= cursor && cursor < top + 3, "{start} {cursor}");
            assert!(top + 3 <= 6);
        }
    }
}

#[test]
fn rows_stay_within_the_editor_unless_one_cluster_is_wider() {
    let comment = "한글".chars().collect::<Vec<_>>();
    assert_eq!(layout_comment(&comment, 0, 1).lines, ["한", "글"]);
    let text = "a quick 한글 brown fox\nwith 🇺🇸 and 👨‍👩‍👧‍👦".chars().collect::<Vec<_>>();
    for row in layout_comment(&text, 0, 6).lines {
        assert!(herdr_annotate::width::string_width(&row) <= 6, "{row}");
    }
}

#[test]
fn every_cursor_of_a_wrapped_line_maps_back_to_itself() {
    let comment: Vec<char> = "ab界cd界e".chars().collect();
    for width in [2, 3, 4, 40] {
        for cursor in 0..=comment.len() {
            let layout = layout_comment(&comment, cursor, width);
            assert_eq!(
                cursor_at_visual_position(&comment, layout.cursor_row, layout.cursor_col, width),
                cursor,
                "cursor {cursor} at width {width}"
            );
        }
    }
}

#[test]
fn a_zero_width_cluster_does_not_map_back() {
    let comment: Vec<char> = "a\u{200b}b".chars().collect();
    let layout = layout_comment(&comment, 1, 40);
    assert_eq!((layout.cursor_row, layout.cursor_col), (0, 1));
    assert_eq!(cursor_at_visual_position(&comment, 0, 1, 40), 2);
}

#[test]
fn every_cursor_of_a_multi_line_comment_maps_back_to_itself() {
    let comment: Vec<char> = "ab\ncd界\n\ne".chars().collect();
    for width in [3, 5, 40] {
        for cursor in 0..=comment.len() {
            let layout = layout_comment(&comment, cursor, width);
            assert_eq!(
                cursor_at_visual_position(&comment, layout.cursor_row, layout.cursor_col, width),
                cursor,
                "cursor {cursor} at width {width}"
            );
        }
    }
}

#[test]
fn a_line_break_after_a_full_row_does_not_map_back() {
    let comment: Vec<char> = "ab\ncd".chars().collect();
    let layout = layout_comment(&comment, 2, 2);
    assert_eq!((layout.cursor_row, layout.cursor_col), (1, 0));
    assert_eq!(cursor_at_visual_position(&comment, 1, 0, 2), 3);
}
