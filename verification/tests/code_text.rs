use anim_curve::code_viewer::{
    remove_leading_indentation, show_code, CodeViewer, HORIZONTAL_SAMPLE, SAVE_SAMPLE,
};

#[test]
fn indentation_of_the_first_line_is_removed_everywhere() {
    assert_eq!(remove_leading_indentation("  a\n    b\n  c\n"), "a\n  b\nc\n");
    assert_eq!(remove_leading_indentation("\ta\n\t\tb"), "a\n\tb");
}

#[test]
fn lines_with_less_indent_lose_what_they_have() {
    assert_eq!(remove_leading_indentation("    a\n b\nc\n  d"), "a\nb\nc\nd");
    assert_eq!(remove_leading_indentation("  a\n\n  b\n"), "a\n\nb\n");
    assert_eq!(remove_leading_indentation("  a\n \n  b\n"), "a\n\nb\n");
}

#[test]
fn text_without_indent_is_unchanged() {
    assert_eq!(remove_leading_indentation(""), "");
    assert_eq!(remove_leading_indentation("a"), "a");
    assert_eq!(remove_leading_indentation("a\n  b\n"), "a\n  b\n");
    assert_eq!(remove_leading_indentation("\n  a\n"), "\n  a\n");
    assert_eq!(remove_leading_indentation("\n\n"), "\n\n");
}

#[test]
fn only_indent() {
    assert_eq!(remove_leading_indentation("   "), "");
    assert_eq!(remove_leading_indentation("  \n  "), "\n");
    assert_eq!(remove_leading_indentation(" \t x"), "x");
}

#[test]
fn characters_beyond_ascii_are_kept() {
    assert_eq!(
        remove_leading_indentation("  \u{e9}t\u{e9}\n   \u{1f5e0} x\n"),
        "\u{e9}t\u{e9}\n \u{1f5e0} x\n"
    );
}

#[test]
fn shown_code_drops_leading_line_feeds() {
    assert_eq!(show_code("\n\n  a\n    b\n"), "a\n  b\n");
    assert_eq!(show_code("  a\n\n"), "a\n\n");
    assert_eq!(show_code("\n"), "");
    assert_eq!(show_code(""), "");
    assert_eq!(
        show_code(SAVE_SAMPLE),
        "if ui.button(\"Save\").clicked() {\n    my_state.save();\n}\n"
    );
}

#[test]
fn viewer_samples() {
    let viewer = CodeViewer::default();
    assert_eq!(viewer, CodeViewer {});
    assert_eq!(viewer.name(), "\u{1f5e0} Code Viewer");
    let shown = viewer.ui();
    assert_eq!(shown.len(), 3);
    assert_eq!(shown[0], "if ui.button(\"Save\").clicked() {\n    my_state.save();\n}\n");
    let horizontal = "// Putting things on the same line using ui.horizontal:\nui.horizontal(|ui| {\n    ui.label(\"Your name: \");\n    ui.text_edit_singleline(&mut self.name);\n});";
    assert_eq!(shown[1], format!("{}\n", horizontal));
    assert_eq!(shown[2], horizontal);
    assert_eq!(shown[1], show_code(HORIZONTAL_SAMPLE));
}
