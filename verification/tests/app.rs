use imp_tui::app::{
    extract_html_title, extract_http_status, looks_like_html_error, parse_api_error,
};
use imp_tui::app::terminal_title_from;

#[test]
fn extracts_nested_json_error_message() {
    let raw = "Provider error: HTTP 401 Unauthorized: {\"type\":\"error\",\"error\":{\"type\":\"authentication_error\",\"message\":\"OAuth token has expired\"}}";
    assert_eq!(
        parse_api_error(raw),
        "OAuth token has expired (use /login to refresh)"
    );
}

#[test]
fn extracts_simple_json_message() {
    let raw = "Provider error: HTTP 429 Too Many Requests: {\"message\":\"Rate limited\"}";
    assert_eq!(parse_api_error(raw), "Rate limited");
}

#[test]
fn collapses_html_error_pages_to_summary() {
    let raw = "Provider error: HTTP 403 Forbidden: <!DOCTYPE html><html><head><title>Attention Required! | Cloudflare</title></head><body>blocked</body></html>";
    assert_eq!(
        parse_api_error(raw),
        "Provider returned an HTML error page (HTTP 403 Forbidden: Attention Required! | Cloudflare). This usually means an auth, gateway, proxy, or rate-limit issue."
    );
}

#[test]
fn leaves_plain_text_errors_alone() {
    let raw = "Provider error: connection reset by peer";
    assert_eq!(parse_api_error(raw), raw);
}

#[test]
fn html_detection_and_extraction() {
    let raw = "Provider error: HTTP 502 Bad Gateway: <html><title> Oops </title></html>";
    assert!(looks_like_html_error(raw));
    assert_eq!(extract_http_status(raw), Some("HTTP 502 Bad Gateway".to_string()));
    assert_eq!(extract_html_title(raw), Some("Oops".to_string()));
    assert!(!looks_like_html_error("plain failure"));
    assert_eq!(extract_http_status("no status here"), None);
    assert_eq!(extract_html_title("<title></title>"), None);
}

#[test]
fn terminal_title_prefers_name_then_title_then_chat() {
    assert_eq!(terminal_title_from(Some("my chat"), Some("other")), "imp — my chat");
    assert_eq!(
        terminal_title_from(None, Some("adjust top bar layout")),
        "imp — adjust top bar layout"
    );
    assert_eq!(terminal_title_from(None, None), "imp — chat");
    assert_eq!(terminal_title_from(Some("  "), Some("ignored")), "imp — chat");
}
