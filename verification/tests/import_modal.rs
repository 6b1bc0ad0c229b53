use castcodes::themes::import_modal::{
    pick_css_path, BodyRequest, ImportThemeBody, ImportThemeBodyAction, ImportThemeBodyEvent,
    ImportThemeModal, ImportThemeModalAction, ImportThemeModalEvent, ImportedTheme,
    ParsedThemeInfo,
};
use castcodes::themes::GamutPolicy;

fn info(light: usize, dark: usize, hint: Option<&str>) -> ParsedThemeInfo {
    ParsedThemeInfo {
        light_colors: light,
        dark_colors: dark,
        name_comment: hint.map(|h| h.to_string()),
    }
}

fn parsed_body(name: &str) -> ImportThemeBody {
    let mut body = ImportThemeBody::new();
    body.name = name.to_string();
    let token = body.on_css_changed(":root { --x: oklch(1 0 0); }".to_string());
    assert_eq!(token, Some(1));
    assert!(body.parse_timer_fired(1));
    body.finish_parse(Ok(info(1, 0, None)));
    body
}

#[test]
fn new_dialog_is_empty_and_clamps() {
    let body = ImportThemeBody::new();
    assert!(body.css_text.is_empty());
    assert!(body.name.is_empty());
    assert!(body.parse_result.is_none());
    assert!(body.clamp_out_of_gamut);
    assert!(!body.can_save());
}

#[test]
fn blank_css_drops_the_parse_and_schedules_nothing() {
    let mut body = parsed_body("ocean");
    assert!(body.can_save());
    let token = body.on_css_changed("  \n\t ".to_string());
    assert_eq!(token, None);
    assert!(body.parse_result.is_none());
    assert_eq!(body.pending_parse_token, 2);
    assert!(!body.can_save());
}

#[test]
fn an_edit_makes_an_earlier_parse_stale() {
    let mut body = ImportThemeBody::new();
    let first = body.on_css_changed("a".to_string()).unwrap();
    let second = body.on_css_changed("ab".to_string()).unwrap();
    assert_ne!(first, second);
    assert!(!body.parse_timer_fired(first));
    assert!(body.parse_timer_fired(second));
}

#[test]
fn the_token_wraps_around() {
    let mut body = ImportThemeBody::new();
    body.pending_parse_token = u64::MAX;
    assert_eq!(body.on_css_changed("x".to_string()), Some(0));
}

#[test]
fn an_edit_clears_the_error_line() {
    let mut body = ImportThemeBody::new();
    body.show_error = Some("old".to_string());
    body.on_css_changed("x".to_string());
    assert!(body.show_error.is_none());
}

#[test]
fn a_parse_fills_an_empty_name_from_the_comment() {
    let mut body = ImportThemeBody::new();
    assert!(body.finish_parse(Ok(info(2, 3, Some("midnight-ember")))));
    assert_eq!(body.name, "midnight-ember");
    let mut named = ImportThemeBody::new();
    named.name = "mine".to_string();
    assert!(!named.finish_parse(Ok(info(2, 3, Some("midnight-ember")))));
    assert_eq!(named.name, "mine");
}

#[test]
fn a_failed_parse_cannot_be_saved() {
    let mut body = ImportThemeBody::new();
    body.name = "ocean".to_string();
    assert!(!body.finish_parse(Err("NoColorBlocksFound".to_string())));
    assert_eq!(body.parse_result, Some(Err("NoColorBlocksFound".to_string())));
    assert!(!body.can_save());
}

#[test]
fn a_blank_name_cannot_be_saved() {
    let body = parsed_body("   ");
    assert!(!body.can_save());
    assert!(matches!(body.save(), BodyRequest::Nothing));
}

#[test]
fn saving_writes_under_the_trimmed_name() {
    let mut body = parsed_body("  ocean  ");
    match body.handle_action(ImportThemeBodyAction::Save) {
        BodyRequest::WriteTheme { slug, policy } => {
            assert_eq!(slug, "ocean");
            assert_eq!(policy, GamutPolicy::Clamp);
        }
        _ => panic!("expected a write"),
    }
    body.handle_action(ImportThemeBodyAction::ToggleClamp);
    match body.save() {
        BodyRequest::WriteTheme { policy, .. } => assert_eq!(policy, GamutPolicy::Strict),
        _ => panic!("expected a write"),
    }
}

#[test]
fn toggling_twice_restores_the_policy() {
    let mut body = ImportThemeBody::new();
    body.toggle_clamp();
    assert!(!body.clamp_out_of_gamut);
    body.toggle_clamp();
    assert!(body.clamp_out_of_gamut);
}

#[test]
fn a_written_theme_is_announced_under_its_file_stem() {
    let mut body = parsed_body("ocean");
    let events = body.finish_save(Ok(vec![
        "/themes/ocean-dark.yaml".to_string(),
        "/themes/ocean-light.yaml".to_string(),
    ]));
    assert_eq!(events.len(), 2);
    match &events[0] {
        ImportThemeBodyEvent::ThemeSaved { theme } => {
            assert_eq!(
                theme,
                &ImportedTheme {
                    name: "ocean-dark".to_string(),
                    path: "/themes/ocean-dark.yaml".to_string()
                }
            );
        }
        _ => panic!("expected ThemeSaved"),
    }
    assert!(matches!(events[1], ImportThemeBodyEvent::Close));
    assert!(body.show_error.is_none());
}

#[test]
fn a_stemless_path_is_announced_under_the_name() {
    let mut body = parsed_body(" ocean ");
    let events = body.apply_save_outcome(Ok(vec!["/".to_string()]), None);
    match &events[0] {
        ImportThemeBodyEvent::ThemeSaved { theme } => assert_eq!(theme.name, "ocean"),
        _ => panic!("expected ThemeSaved"),
    }
}

#[test]
fn writing_nothing_shows_an_error() {
    let mut body = parsed_body("ocean");
    let events = body.finish_save(Ok(vec![]));
    assert!(events.is_empty());
    assert_eq!(
        body.show_error.as_deref(),
        Some("No color blocks were written — check your CSS.")
    );
}

#[test]
fn a_failed_write_is_shown_and_announced() {
    let mut body = parsed_body("ocean");
    let events = body.finish_save(Err("Io(\"denied\")".to_string()));
    assert_eq!(events.len(), 1);
    match &events[0] {
        ImportThemeBodyEvent::ShowError { message } => {
            assert_eq!(message, "Write failed: Io(\"denied\")")
        }
        _ => panic!("expected ShowError"),
    }
    assert_eq!(body.show_error.as_deref(), Some("Write failed: Io(\"denied\")"));
}

#[test]
fn the_first_css_file_dropped_is_read() {
    let mut body = ImportThemeBody::new();
    let paths = vec![
        "/tmp/notes.txt".to_string(),
        "/tmp/ocean.css".to_string(),
        "/tmp/other.css".to_string(),
    ];
    match body.handle_action(ImportThemeBodyAction::FileDropped(paths)) {
        BodyRequest::ReadFile { path } => assert_eq!(path, "/tmp/ocean.css"),
        _ => panic!("expected a read"),
    }
    assert!(body.show_error.is_none());
}

#[test]
fn dropping_no_css_file_keeps_the_pasted_css() {
    let mut body = ImportThemeBody::new();
    body.on_css_changed("pasted".to_string());
    let picked = body.on_file_dropped(vec!["/tmp/a.txt".to_string(), "/tmp/css".to_string()]);
    assert_eq!(picked, None);
    assert_eq!(body.css_text, "pasted");
    assert_eq!(body.show_error.as_deref(), Some("Only .css files are supported."));
    assert_eq!(body.on_file_dropped(vec![]), None);
}

#[test]
fn picks_by_extension() {
    let exts = vec![None, Some("txt".to_string()), Some("css".to_string()), Some("css".to_string())];
    assert_eq!(pick_css_path(&exts), Some(2));
    assert_eq!(pick_css_path(&vec![Some("CSS".to_string())]), None);
}

#[test]
fn a_read_file_fills_the_form() {
    let mut body = ImportThemeBody::new();
    let parse_now = body.finish_file_read("/tmp/ocean.css", Ok(":root {}".to_string()));
    assert!(parse_now);
    assert_eq!(body.name, "ocean");
    assert_eq!(body.css_text, ":root {}");
    assert_eq!(body.pending_parse_token, 1);
}

#[test]
fn a_read_file_keeps_a_typed_name() {
    let mut body = ImportThemeBody::new();
    body.name = "mine".to_string();
    body.finish_file_read("/tmp/ocean.css", Ok(":root {}".to_string()));
    assert_eq!(body.name, "mine");
}

#[test]
fn a_blank_file_needs_no_parse() {
    let mut body = ImportThemeBody::new();
    assert!(!body.apply_file_read(None, Ok("   ".to_string())));
    assert_eq!(body.name, "imported-theme");
    assert!(body.parse_result.is_none());
}

#[test]
fn a_failed_read_is_shown() {
    let mut body = ImportThemeBody::new();
    assert!(!body.finish_file_read("/tmp/ocean.css", Err("permission denied".to_string())));
    assert_eq!(body.show_error.as_deref(), Some("Read failed: permission denied"));
    assert!(body.name.is_empty());
}

#[test]
fn status_texts_follow_the_state() {
    let mut body = ImportThemeBody::new();
    let s = body.status();
    assert_eq!(s.light_text, "Light: –");
    assert_eq!(s.dark_text, "Dark: –");
    assert_eq!(s.clamp_label, "☑ Clamp out-of-gamut colors");
    assert!(!s.save_enabled);
    body.name = "x".to_string();
    body.finish_parse(Ok(info(0, 4, None)));
    body.toggle_clamp();
    let s = body.status();
    assert_eq!(s.light_text, "Light: –");
    assert_eq!(s.dark_text, "Dark: ✓");
    assert_eq!(s.clamp_label, "☐ Clamp out-of-gamut colors");
    assert!(s.save_enabled);
}

#[test]
fn cancelling_closes() {
    let mut body = ImportThemeBody::new();
    assert!(matches!(body.cancel(), ImportThemeBodyEvent::Close));
    assert!(matches!(
        body.handle_action(ImportThemeBodyAction::Cancel),
        BodyRequest::Emit(ImportThemeBodyEvent::Close)
    ));
    let mut modal = ImportThemeModal::new();
    assert!(matches!(
        modal.handle_action(ImportThemeModalAction::Cancel),
        ImportThemeModalEvent::Close
    ));
}

#[test]
fn body_events_reach_the_settings_page() {
    let modal = ImportThemeModal::new();
    let theme = ImportedTheme { name: "a".to_string(), path: "/a.yaml".to_string() };
    match modal.handle_body_event(ImportThemeBodyEvent::ThemeSaved { theme: theme.clone() }) {
        ImportThemeModalEvent::ThemeSaved { theme: t } => assert_eq!(t, theme),
        _ => panic!("expected ThemeSaved"),
    }
    match modal.handle_body_event(ImportThemeBodyEvent::ShowError { message: "m".to_string() }) {
        ImportThemeModalEvent::ShowErrorToast { message } => assert_eq!(message, "m"),
        _ => panic!("expected a toast"),
    }
    assert!(matches!(
        modal.handle_body_event(ImportThemeBodyEvent::Close),
        ImportThemeModalEvent::Close
    ));
}
