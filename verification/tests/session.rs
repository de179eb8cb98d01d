use ratex_canvas::resource::MathResource;
use ratex_canvas::session::{layout_source, Session, Theme};

fn theme(fg: &str, size: f64) -> Theme<f64> {
    Theme { foreground: fg.to_string(), font_size: size }
}

const PARSE_ERRORS: &[&str] = &[
    r"\frac{a}{",
    r"\unknownmacroxyz",
    r"{",
];

#[test]
fn golden_parse_errors_are_honest_errs() {
    for source in PARSE_ERRORS {
        let result = Session::construct(source, theme("#000000", 20.0));
        assert!(result.is_err(), "{source}: expected parse error");
        let msg = result.err().unwrap().0;
        assert!(!msg.is_empty(), "{source}: error message must be non-empty");
    }
}

#[test]
fn golden_update_source_keeps_old_on_error() {
    let mut session = Session::construct("x^2", theme("#000000", 20.0)).unwrap();
    let items_before = session.display_list().items.clone();
    assert!(session.update_source(r"\frac{a}{").is_err());
    assert_eq!(session.display_list().items, items_before, "failed update must keep old content");
    assert_eq!(session.source(), "x^2");

    assert!(session.update_source(r"\sqrt{2}").is_ok());
    assert_eq!(session.source(), r"\sqrt{2}");
    assert!(session.display_list().width > 0.0);
}

#[test]
fn construct_keeps_source_and_theme_without_constraint() {
    let session = Session::construct(r"\frac{a}{b}", theme("#ff8800", 24.0)).unwrap();
    assert_eq!(session.source(), r"\frac{a}{b}");
    assert_eq!(session.theme().foreground, "#ff8800");
    assert_eq!(session.theme().font_size, 24.0);
    assert_eq!(session.constraint_width(), None);
    assert!(!session.display_list().items.is_empty());
}

#[test]
fn constraint_and_theme_setters_replace_values() {
    let mut session = Session::construct("x", theme("#000000", 20.0)).unwrap();
    session.set_constraint(Some(50.0));
    assert_eq!(session.constraint_width(), Some(50.0));
    session.set_constraint(None);
    assert_eq!(session.constraint_width(), None);
    session.set_theme(theme("#00ff00", 12.0));
    assert_eq!(session.theme().foreground, "#00ff00");
    assert_eq!(session.theme().font_size, 12.0);
    assert_eq!(session.source(), "x");
}

#[test]
fn layout_source_error_names_the_parse_error() {
    let err = layout_source(r"\frac{a}{").err().unwrap();
    assert!(err.0.starts_with("ParseError"), "{}", err.0);
}

#[test]
fn layout_is_deterministic_for_a_source() {
    let a = layout_source(r"\sum_{i=1}^{n} i").unwrap();
    let b = layout_source(r"\sum_{i=1}^{n} i").unwrap();
    assert_eq!(a.items, b.items);
    assert_eq!(a.width, b.width);
}

#[test]
fn failed_resource_reports_its_error_on_render() {
    let res = MathResource::new(r"{", theme("#000000", 20.0));
    let err = res.session().err().unwrap();
    assert!(!err.is_empty());
}

#[test]
fn failed_resource_retries_with_last_theme() {
    let mut res = MathResource::new(r"{", theme("#000000", 20.0));
    res.set_theme(theme("#112233", 30.0));
    assert!(res.update_source(r"\frac{a}{").is_err());
    assert!(res.session().is_err());
    assert!(res.update_source("x^2").is_ok());
    let session = res.session().unwrap();
    assert_eq!(session.source(), "x^2");
    assert_eq!(session.theme().foreground, "#112233");
    assert_eq!(session.theme().font_size, 30.0);
}

#[test]
fn ready_resource_keeps_session_on_failed_update() {
    let mut res = MathResource::new("x^2", theme("#000000", 20.0));
    res.set_constraint(Some(40.0));
    assert!(res.update_source(r"\unknownmacroxyz").is_err());
    let session = res.session().unwrap();
    assert_eq!(session.source(), "x^2");
    assert_eq!(session.constraint_width(), Some(40.0));
    res.set_theme(theme("#445566", 18.0));
    assert_eq!(res.theme().foreground, "#445566");
    assert_eq!(res.session().unwrap().theme().foreground, "#445566");
}

#[test]
fn resource_from_failed_outcome_reports_that_error() {
    let res: MathResource<f64> =
        MathResource::from_outcome(Err(ratex_canvas::Error("internal panic: boom".to_string())), theme("#000000", 20.0));
    assert_eq!(res.session().err().unwrap(), "internal panic: boom");
    assert_eq!(res.theme().foreground, "#000000");
}

#[test]
fn resource_from_session_is_ready() {
    let session = Session::construct("y", theme("#123123", 16.0)).unwrap();
    let res = MathResource::from_outcome(Ok(session), theme("#123123", 16.0));
    assert_eq!(res.session().unwrap().source(), "y");
}

#[test]
fn font_load_error_is_reported_with_its_cause() {
    let err = ratex_canvas::fonts::check_font_load(Some("no such file"), true).err().unwrap();
    assert_eq!(err.0, "font load failed: no such file");
}

#[test]
fn font_set_without_main_regular_is_refused() {
    let err = ratex_canvas::fonts::check_font_load(None, false).err().unwrap();
    assert_eq!(err.0, "Main-Regular font not found");
    assert!(ratex_canvas::fonts::check_font_load(None, true).is_ok());
}

#[test]
fn sessions_with_same_source_theme_and_constraint_hold_same_layout() {
    let mut a = Session::construct("x^2", theme("#000000", 20.0)).unwrap();
    assert!(a.update_source(r"\sqrt{2}").is_ok());
    assert!(a.update_source(r"\frac{a}{").is_err());
    a.set_constraint(Some(10.0));
    a.set_constraint(None);
    let b = Session::construct(r"\sqrt{2}", theme("#000000", 20.0)).unwrap();
    assert_eq!(a.source(), b.source());
    assert_eq!(a.constraint_width(), b.constraint_width());
    assert_eq!(a.display_list().items, b.display_list().items);
}

#[test]
fn failed_resource_keeps_first_error_through_failed_updates() {
    let mut res = MathResource::new(r"{", theme("#000000", 20.0));
    let first = res.session().err().unwrap();
    assert!(res.update_source(r"\frac{a}{").is_err());
    res.set_theme(theme("#010101", 11.0));
    res.set_constraint(Some(5.0));
    assert!(res.update_source(r"\unknownmacroxyz").is_err());
    assert_eq!(res.session().err().unwrap(), first);
}
