use autogitignore::session::{App, InputMode, PreviewMode};

fn s(x: &str) -> String {
    String::from(x)
}

fn catalog_app() -> App {
    let mut app = App::new();
    app.template_contents = vec![
        (s("node"), s("node_modules/\n")),
        (s("python"), s("__pycache__/\n")),
        (s("rust"), s("target/\n")),
    ];
    app.set_templates(vec![s("node"), s("python"), s("rust")]);
    app
}

#[test]
fn new_session_is_empty_and_loading() {
    let app = App::new();
    assert!(app.templates.is_empty());
    assert!(app.filtered_templates.is_empty());
    assert!(app.selected_templates.is_empty());
    assert_eq!(app.highlighted_index, 0);
    assert_eq!(app.search_query, "");
    assert_eq!(app.input_mode, InputMode::Editing);
    assert!(app.is_loading);
    assert!(app.error.is_none());
    assert!(app.notification.is_none());
    assert_eq!(app.preview_scroll, 0);
    assert_eq!(app.preview_mode, PreviewMode::Highlighted);
    assert!(app.confirm_action.is_none());
    assert!(!app.should_quit_after_save);
}

#[test]
fn set_templates_sorts_and_dedupes() {
    let mut app = App::new();
    app.set_templates(vec![s("python"), s("rust"), s("node"), s("rust")]);
    assert_eq!(app.templates, vec![s("node"), s("python"), s("rust")]);
    assert!(!app.is_loading);
}

#[test]
fn empty_query_filters_whole_catalog_sorted() {
    let app = catalog_app();
    // End-to-end: empty query shows the full sorted catalog.
    assert_eq!(app.filtered_templates, vec![s("node"), s("python"), s("rust")]);
}

#[test]
fn query_ru_filters_to_rust_only() {
    let mut app = catalog_app();
    app.search_query = s("ru");
    app.apply_filter();
    assert_eq!(app.filtered_templates, vec![s("rust")]);
}

#[test]
fn query_without_match_empties_list_and_resets_highlight() {
    let mut app = catalog_app();
    app.highlighted_index = 2;
    app.search_query = s("zzz");
    app.apply_filter();
    assert!(app.filtered_templates.is_empty());
    assert_eq!(app.highlighted_index, 0);
}

#[test]
fn filtering_twice_gives_same_list() {
    let mut app = catalog_app();
    app.search_query = s("n");
    app.apply_filter();
    let once = app.filtered_templates.clone();
    app.apply_filter();
    assert_eq!(once, app.filtered_templates);
}

#[test]
fn filtered_is_subset_with_query_as_subsequence() {
    let mut app = catalog_app();
    app.search_query = s("o");
    app.apply_filter();
    for t in &app.filtered_templates {
        assert!(app.templates.contains(t));
        assert!(t.contains('o'));
    }
}

#[test]
fn next_wraps_at_end() {
    let mut app = catalog_app();
    assert_eq!(app.highlighted_index, 0);
    app.next();
    assert_eq!(app.highlighted_index, 1);
    app.next();
    assert_eq!(app.highlighted_index, 2);
    app.next();
    assert_eq!(app.highlighted_index, 0);
}

#[test]
fn previous_wraps_at_start() {
    let mut app = catalog_app();
    app.previous();
    assert_eq!(app.highlighted_index, 2);
    app.previous();
    assert_eq!(app.highlighted_index, 1);
}

#[test]
fn navigation_on_empty_list_does_nothing() {
    let mut app = App::new();
    app.next();
    app.previous();
    assert_eq!(app.highlighted_index, 0);
}

#[test]
fn navigation_resets_preview_scroll() {
    let mut app = catalog_app();
    app.preview_scroll = 7;
    app.next();
    assert_eq!(app.preview_scroll, 0);
}

#[test]
fn toggle_adds_then_removes() {
    let mut app = catalog_app();
    app.toggle_selection();
    assert_eq!(app.selected_templates, vec![s("node")]);
    app.toggle_selection();
    assert!(app.selected_templates.is_empty());
}

#[test]
fn selection_stays_inside_catalog() {
    let mut app = catalog_app();
    app.next();
    app.toggle_selection();
    app.next();
    app.toggle_selection();
    for t in &app.selected_templates {
        assert!(app.templates.contains(t));
    }
    assert_eq!(app.selected_templates, vec![s("python"), s("rust")]);
}

#[test]
fn toggle_clears_messages() {
    let mut app = catalog_app();
    app.error = Some(s("boom"));
    app.toggle_selection();
    assert!(app.error.is_none());
    assert!(app.notification.is_none());
}

#[test]
fn toggle_on_empty_list_keeps_selection() {
    let mut app = catalog_app();
    app.toggle_selection();
    app.search_query = s("zzz");
    app.apply_filter();
    app.toggle_selection();
    assert_eq!(app.selected_templates, vec![s("node")]);
}

#[test]
fn set_templates_prunes_selection_to_new_catalog() {
    let mut app = catalog_app();
    app.toggle_selection();
    assert_eq!(app.selected_templates, vec![s("node")]);
    app.set_templates(vec![s("python"), s("rust")]);
    assert!(app.selected_templates.is_empty());
}

#[test]
fn highlighted_preview_shows_header_and_content() {
    let app = catalog_app();
    assert_eq!(
        app.get_combined_preview(),
        "--- PREVIEWING: node ---\n\nnode_modules/\n"
    );
}

#[test]
fn highlighted_preview_without_content_shows_placeholder() {
    let mut app = App::new();
    app.set_templates(vec![s("lonely")]);
    assert_eq!(
        app.get_combined_preview(),
        "--- PREVIEWING: lonely ---\n\nLoading preview..."
    );
}

#[test]
fn highlighted_preview_without_any_template() {
    let app = App::new();
    assert_eq!(app.get_combined_preview(), "No template highlighted.");
}

#[test]
fn combined_preview_without_selection_shows_hint() {
    let mut app = catalog_app();
    app.preview_mode = PreviewMode::Combined;
    assert_eq!(
        app.get_combined_preview(),
        "No templates selected. Use [Highlighted] view to see templates."
    );
}

#[test]
fn combined_preview_concatenates_selected_sections() {
    let mut app = catalog_app();
    app.toggle_selection();
    app.next();
    app.next();
    app.toggle_selection();
    app.preview_mode = PreviewMode::Combined;
    assert_eq!(
        app.get_combined_preview(),
        "### node ###\nnode_modules/\n\n\n### rust ###\ntarget/\n\n\n"
    );
}

#[test]
fn generated_content_orders_sections_lexicographically() {
    // Selection {A, B} with contents {A: x, B: y}: the A section comes
    // before the B section, each with its own content.
    let mut app = App::new();
    app.template_contents = vec![(s("B"), s("y")), (s("A"), s("x"))];
    app.set_templates(vec![s("B"), s("A")]);
    app.toggle_selection();
    app.next();
    app.toggle_selection();
    let content = app.generate_gitignore_content();
    assert_eq!(content, "\n# --- A ---\nx\n\n# --- B ---\ny\n");
    let a_at = content.find("# --- A ---").unwrap();
    let b_at = content.find("# --- B ---").unwrap();
    assert!(a_at < b_at);
}

#[test]
fn generated_content_uses_empty_string_for_missing_content() {
    let mut app = App::new();
    app.set_templates(vec![s("ghost")]);
    app.toggle_selection();
    assert_eq!(app.generate_gitignore_content(), "\n# --- ghost ---\n\n");
}

#[test]
fn selected_names_summary_joins_with_commas() {
    let mut app = catalog_app();
    assert_eq!(app.get_selected_names_summary(), "");
    app.toggle_selection();
    assert_eq!(app.get_selected_names_summary(), "node");
    app.next();
    app.toggle_selection();
    assert_eq!(app.get_selected_names_summary(), "node, python");
}

#[test]
fn preview_line_count_counts_rendered_lines() {
    let app = catalog_app();
    // "--- PREVIEWING: node ---\n\nnode_modules/\n" renders as 3 lines.
    assert_eq!(app.get_preview_line_count(), 3);
}

#[test]
fn max_preview_scroll_clamps_to_content_height() {
    let mut app = catalog_app();
    app.set_preview_height(1);
    assert_eq!(app.max_preview_scroll(), 2);
    app.set_preview_height(10);
    assert_eq!(app.max_preview_scroll(), 0);
}

#[test]
fn scrolling_stops_at_both_ends() {
    let mut app = catalog_app();
    app.set_preview_height(1);
    app.scroll_preview_down();
    app.scroll_preview_down();
    app.scroll_preview_down();
    assert_eq!(app.preview_scroll, 2);
    app.scroll_preview_up();
    app.scroll_preview_up();
    app.scroll_preview_up();
    assert_eq!(app.preview_scroll, 0);
    app.page_preview_down();
    assert_eq!(app.preview_scroll, 2);
    app.page_preview_up();
    assert_eq!(app.preview_scroll, 0);
}

#[test]
fn apply_filter_clamps_highlight_to_last_entry() {
    let mut app = catalog_app();
    app.highlighted_index = 2;
    app.search_query = s("n");
    app.apply_filter();
    assert!(app.highlighted_index < app.filtered_templates.len());
}
