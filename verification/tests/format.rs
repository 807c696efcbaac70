use herdr_annotate::format::{fence_for, format_annotations, sanitize_terminal_text, wrap_text};
use herdr_annotate::types::{Annotation, InvocationContext};

fn annotation(selection: &str) -> Annotation {
    Annotation {
        selected_text: selection.to_owned(),
        context: InvocationContext {
            workspace_label: Some("api".to_owned()),
            tab_label: Some("server".to_owned()),
            ..InvocationContext::default()
        },
        captured_at: "captured".to_owned(),
        id: "one".to_owned(),
        comment: "Check the database first.".to_owned(),
        created_at: "created".to_owned(),
    }
}

#[test]
fn wrapping_preserves_newlines_and_uses_cells() {
    assert_eq!(wrap_text("abcdef\nxy", 3), ["abc", "def", "xy"]);
    assert_eq!(wrap_text("한글한글", 4), ["한글", "한글"]);
    assert_eq!(wrap_text("한글한", 5), ["한글", "한"]);
    assert_eq!(wrap_text("a한b한", 4), ["a한b", "한"]);
    assert_eq!(wrap_text("🇺🇸x", 2), ["🇺🇸", "x"]);
    assert_eq!(wrap_text("a\u{1ab0}b", 1), ["a\u{1ab0}", "b"]);
}

#[test]
fn terminal_display_strips_control_characters() {
    assert_eq!(
        sanitize_terminal_text("safe\u{001b}[2J\ttext\nnext"),
        "safe[2J    text\nnext"
    );
}

#[test]
fn markdown_contains_source_selection_and_comment() {
    let output = format_annotations(&[annotation("failed to connect")]);
    assert!(output.contains("# Annotated context"));
    assert!(output.contains("Source: api / server"));
    assert!(output.contains("failed to connect"));
    assert!(output.contains("Check the database first."));
}

#[test]
fn markdown_uses_a_longer_fence_for_backticks() {
    let output = format_annotations(&[annotation("```example```")]);
    assert!(output.contains("````\n```example```\n````"));
}

#[test]
fn wrapping_keeps_empty_lines_and_normalizes_crlf() {
    assert_eq!(wrap_text("a\r\n\r\nb", 10), ["a", "", "b"]);
    assert_eq!(wrap_text("", 10), [""]);
    assert_eq!(wrap_text("abc", 0), ["a", "b", "c"]);
}

#[test]
fn wrapped_rows_spell_the_text_without_its_newlines() {
    let text = "one two\nthree 한글 four";
    let rows = wrap_text(text, 4);
    assert_eq!(rows.concat(), text.replace('\n', ""));
}

#[test]
fn sanitizing_keeps_newlines_and_printable_text() {
    assert_eq!(sanitize_terminal_text("a\u{0000}\u{0008}\u{000b}\u{000c}\u{000e}\u{001f}\u{007f}b"), "ab");
    assert_eq!(sanitize_terminal_text("line\nnext\r"), "line\nnext\r");
    assert_eq!(sanitize_terminal_text("\t"), "    ");
}

#[test]
fn fences_outgrow_every_backtick_run() {
    assert_eq!(fence_for("plain"), "```");
    assert_eq!(fence_for("``"), "```");
    assert_eq!(fence_for("a ``` b"), "````");
    assert_eq!(fence_for("`````"), "``````");
}

#[test]
fn markdown_is_exact_for_one_annotation() {
    let output = format_annotations(&[annotation("failed to connect")]);
    assert_eq!(
        output,
        "# Annotated context\n\n## Annotation 1\n\nSource: api / server\n\nSelected text:\n\n```\nfailed to connect\n```\n\nComment:\n\nCheck the database first.\n"
    );
    let bare = Annotation {
        context: InvocationContext::default(),
        ..annotation("x")
    };
    assert_eq!(
        format_annotations(&[bare.clone(), bare]),
        "# Annotated context\n\n## Annotation 1\n\nSelected text:\n\n```\nx\n```\n\nComment:\n\nCheck the database first.\n\n## Annotation 2\n\nSelected text:\n\n```\nx\n```\n\nComment:\n\nCheck the database first.\n"
    );
    assert_eq!(format_annotations(&[]), "# Annotated context\n\n\n");
}

#[test]
fn rows_fit_the_width_unless_one_cluster_is_wider() {
    assert_eq!(wrap_text("한글", 1), ["한", "글"]);
    for row in wrap_text("a quick 한글 brown fox, 🇺🇸 and 👨‍👩‍👧‍👦 too", 5) {
        assert!(herdr_annotate::width::string_width(&row) <= 5, "{row}");
    }
}
