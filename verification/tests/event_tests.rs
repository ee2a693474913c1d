use autogitignore::catalog::CacheData;
use autogitignore::events::{AppEvent, EventAction, KeyCode, KeyInput};
use autogitignore::output::WriteMode;
use autogitignore::session::{App, ConfirmAction, InputMode, PreviewMode};

fn s(x: &str) -> String {
    String::from(x)
}

fn key(code: KeyCode) -> AppEvent {
    AppEvent::Key(KeyInput { code, alt: false, ctrl: false })
}

fn alt_key(code: KeyCode) -> AppEvent {
    AppEvent::Key(KeyInput { code, alt: true, ctrl: false })
}

fn ctrl_key(code: KeyCode) -> AppEvent {
    AppEvent::Key(KeyInput { code, alt: false, ctrl: true })
}

fn snapshot() -> CacheData {
    CacheData {
        templates: vec![s("node"), s("python"), s("rust")],
        contents: vec![
            (s("node"), s("node_modules/\n")),
            (s("python"), s("__pycache__/\n")),
            (s("rust"), s("target/\n")),
        ],
    }
}

fn loaded_app() -> App {
    let mut app = App::new();
    let act = app.handle_event(AppEvent::DataLoaded(snapshot()));
    assert_eq!(act, EventAction::Continue);
    let act = app.handle_event(key(KeyCode::Esc));
    assert_eq!(act, EventAction::Continue);
    assert_eq!(app.input_mode, InputMode::Normal);
    app
}

#[test]
fn tick_changes_nothing() {
    let mut app = App::new();
    let before_query = app.search_query.clone();
    let act = app.handle_event(AppEvent::Tick);
    assert_eq!(act, EventAction::Continue);
    assert_eq!(app.search_query, before_query);
    assert!(app.is_loading);
}

#[test]
fn data_loaded_populates_catalog_and_ends_loading() {
    let mut app = App::new();
    app.handle_event(AppEvent::DataLoaded(snapshot()));
    assert!(!app.is_loading);
    assert_eq!(app.templates, vec![s("node"), s("python"), s("rust")]);
    assert_eq!(app.filtered_templates, app.templates);
}

#[test]
fn error_event_shows_message_and_ends_loading() {
    let mut app = App::new();
    let act = app.handle_event(AppEvent::Error(s("network down")));
    assert_eq!(act, EventAction::Continue);
    assert_eq!(app.error, Some(s("network down")));
    assert!(app.notification.is_none());
    assert!(!app.is_loading);
}

#[test]
fn typing_in_editing_mode_refilters() {
    let mut app = App::new();
    app.handle_event(AppEvent::DataLoaded(snapshot()));
    assert_eq!(app.input_mode, InputMode::Editing);
    app.handle_event(key(KeyCode::Char('r')));
    app.handle_event(key(KeyCode::Char('u')));
    assert_eq!(app.search_query, "ru");
    assert_eq!(app.filtered_templates, vec![s("rust")]);
    app.handle_event(key(KeyCode::Backspace));
    app.handle_event(key(KeyCode::Backspace));
    assert_eq!(app.search_query, "");
    assert_eq!(app.filtered_templates, vec![s("node"), s("python"), s("rust")]);
}

#[test]
fn escape_and_slash_switch_modes() {
    let mut app = loaded_app();
    app.handle_event(key(KeyCode::Char('/')));
    assert_eq!(app.input_mode, InputMode::Editing);
    app.handle_event(key(KeyCode::Enter));
    assert_eq!(app.input_mode, InputMode::Normal);
    app.handle_event(key(KeyCode::Char('i')));
    assert_eq!(app.input_mode, InputMode::Editing);
}

#[test]
fn quit_keys_end_the_session() {
    let mut app = loaded_app();
    assert_eq!(app.handle_event(key(KeyCode::Char('q'))), EventAction::Quit);
    assert_eq!(app.handle_event(key(KeyCode::Esc)), EventAction::Quit);
}

#[test]
fn navigation_keys_move_highlight() {
    let mut app = loaded_app();
    app.handle_event(key(KeyCode::Down));
    assert_eq!(app.highlighted_index, 1);
    app.handle_event(key(KeyCode::Char('j')));
    assert_eq!(app.highlighted_index, 2);
    app.handle_event(key(KeyCode::Down));
    assert_eq!(app.highlighted_index, 0);
    app.handle_event(key(KeyCode::Char('k')));
    assert_eq!(app.highlighted_index, 2);
    app.handle_event(key(KeyCode::Up));
    assert_eq!(app.highlighted_index, 1);
}

#[test]
fn space_toggles_selection() {
    let mut app = loaded_app();
    app.handle_event(key(KeyCode::Char(' ')));
    assert_eq!(app.selected_templates, vec![s("node")]);
    app.handle_event(key(KeyCode::Char(' ')));
    assert!(app.selected_templates.is_empty());
}

#[test]
fn p_toggles_preview_mode_and_resets_scroll() {
    let mut app = loaded_app();
    app.preview_scroll = 3;
    app.handle_event(key(KeyCode::Char('p')));
    assert_eq!(app.preview_mode, PreviewMode::Combined);
    assert_eq!(app.preview_scroll, 0);
    app.handle_event(key(KeyCode::Char('p')));
    assert_eq!(app.preview_mode, PreviewMode::Highlighted);
}

#[test]
fn alt_keys_scroll_the_preview() {
    let mut app = loaded_app();
    app.set_preview_height(1);
    app.handle_event(alt_key(KeyCode::Char('j')));
    assert_eq!(app.preview_scroll, 1);
    app.handle_event(alt_key(KeyCode::Char('k')));
    assert_eq!(app.preview_scroll, 0);
    app.handle_event(key(KeyCode::PageDown));
    assert_eq!(app.preview_scroll, app.max_preview_scroll());
    app.handle_event(key(KeyCode::PageUp));
    assert_eq!(app.preview_scroll, 0);
}

#[test]
fn save_with_empty_selection_is_rejected() {
    let mut app = loaded_app();
    let act = app.handle_event(key(KeyCode::Enter));
    assert_eq!(act, EventAction::Continue);
    assert_eq!(app.error, Some(s("No templates selected!")));
}

#[test]
fn save_and_quit_on_fresh_file_writes_then_quits() {
    let mut app = loaded_app();
    app.handle_event(key(KeyCode::Char(' ')));
    let act = app.handle_event(key(KeyCode::Enter));
    assert_eq!(act, EventAction::ProbeSave);
    assert!(app.should_quit_after_save);
    let act = app.begin_save(false);
    assert_eq!(act, EventAction::Write(WriteMode::Overwrite));
    let quit = app.finish_save(WriteMode::Overwrite, false, Ok(()));
    assert!(quit);
}

#[test]
fn save_without_quit_shows_created_notification() {
    let mut app = loaded_app();
    app.handle_event(key(KeyCode::Char(' ')));
    let act = app.handle_event(ctrl_key(KeyCode::Char('s')));
    assert_eq!(act, EventAction::ProbeSave);
    assert!(!app.should_quit_after_save);
    let act = app.begin_save(false);
    assert_eq!(act, EventAction::Write(WriteMode::Overwrite));
    let quit = app.finish_save(WriteMode::Overwrite, false, Ok(()));
    assert!(!quit);
    assert_eq!(app.notification, Some(s("Successfully created .gitignore!")));
}

#[test]
fn existing_file_opens_confirmation_with_append_default() {
    let mut app = loaded_app();
    app.handle_event(key(KeyCode::Char(' ')));
    app.handle_event(ctrl_key(KeyCode::Char('s')));
    let act = app.begin_save(true);
    assert_eq!(act, EventAction::Continue);
    assert_eq!(app.input_mode, InputMode::Confirm);
    assert_eq!(app.confirm_action, Some(ConfirmAction::Append));
}

#[test]
fn confirmation_keys_pick_the_mode() {
    let mut app = loaded_app();
    app.handle_event(key(KeyCode::Char(' ')));
    app.handle_event(ctrl_key(KeyCode::Char('s')));
    app.begin_save(true);
    app.handle_event(key(KeyCode::Char('o')));
    assert_eq!(app.confirm_action, Some(ConfirmAction::Overwrite));
    app.handle_event(key(KeyCode::Left));
    assert_eq!(app.confirm_action, Some(ConfirmAction::Append));
    app.handle_event(key(KeyCode::Right));
    assert_eq!(app.confirm_action, Some(ConfirmAction::Overwrite));
    let act = app.handle_event(key(KeyCode::Enter));
    assert_eq!(act, EventAction::Write(WriteMode::Overwrite));
    let quit = app.finish_save(WriteMode::Overwrite, true, Ok(()));
    assert!(!quit);
    assert_eq!(app.notification, Some(s("Successfully overwrited .gitignore!")));
    assert_eq!(app.input_mode, InputMode::Normal);
}

#[test]
fn confirmed_append_reports_appending() {
    let mut app = loaded_app();
    app.handle_event(key(KeyCode::Char(' ')));
    app.handle_event(ctrl_key(KeyCode::Char('s')));
    app.begin_save(true);
    let act = app.handle_event(key(KeyCode::Enter));
    assert_eq!(act, EventAction::Write(WriteMode::Append));
    app.finish_save(WriteMode::Append, true, Ok(()));
    assert_eq!(app.notification, Some(s("Successfully appended .gitignore!")));
}

#[test]
fn escape_cancels_confirmation_without_writing() {
    let mut app = loaded_app();
    app.handle_event(key(KeyCode::Char(' ')));
    app.handle_event(ctrl_key(KeyCode::Char('s')));
    app.begin_save(true);
    let act = app.handle_event(key(KeyCode::Esc));
    assert_eq!(act, EventAction::Continue);
    assert_eq!(app.input_mode, InputMode::Normal);
    assert!(app.confirm_action.is_some());
}

#[test]
fn failed_write_shows_reason_and_returns_to_normal() {
    let mut app = loaded_app();
    app.handle_event(key(KeyCode::Char(' ')));
    app.handle_event(ctrl_key(KeyCode::Char('s')));
    app.begin_save(true);
    app.handle_event(key(KeyCode::Enter));
    let quit = app.finish_save(WriteMode::Append, true, Err(s("permission denied")));
    assert!(!quit);
    assert_eq!(app.error, Some(s("Failed to write: permission denied")));
    assert_eq!(app.input_mode, InputMode::Normal);
    assert!(app.notification.is_none());
}

#[test]
fn plain_s_without_ctrl_does_nothing() {
    let mut app = loaded_app();
    app.handle_event(key(KeyCode::Char(' ')));
    let act = app.handle_event(key(KeyCode::Char('s')));
    assert_eq!(act, EventAction::Continue);
    assert_eq!(app.input_mode, InputMode::Normal);
    assert!(app.error.is_none());
}
