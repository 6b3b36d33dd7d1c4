use cause::logging::{log_filter, log_format, LogFilter, LogFormat};

#[test]
fn format_defaults_to_json_off_the_terminal() {
    assert_eq!(log_format(None, true), LogFormat::Text);
    assert_eq!(log_format(None, false), LogFormat::Json);
}

#[test]
fn format_that_was_asked_for_is_used() {
    for is_terminal in [true, false] {
        assert_eq!(log_format(Some(LogFormat::Text), is_terminal), LogFormat::Text);
        assert_eq!(log_format(Some(LogFormat::Json), is_terminal), LogFormat::Json);
    }
}

#[test]
fn formats_have_names() {
    assert_eq!(LogFormat::Text.name(), "text");
    assert_eq!(LogFormat::Json.name(), "json");
}

#[test]
fn filter_is_the_first_that_is_given() {
    let asked = || Some("cause=warn".to_string());
    for in_environment in [true, false] {
        let filter = log_filter(asked(), in_environment);
        assert!(matches!(filter, LogFilter::Given(text) if text == "cause=warn"));
    }
    assert!(matches!(log_filter(None, true), LogFilter::Environment));
    let filter = log_filter(None, false);
    assert!(matches!(filter, LogFilter::Given(text) if text == "cause=debug,axum::rejection=trace"));
}
