use knobify::oauth::{callback_url, success_response};

#[test]
fn request_target_becomes_callback_url() {
    assert_eq!(
        callback_url("GET /callback?code=ABC HTTP/1.1\r\n"),
        Some(String::from("http://localhost:8888/callback?code=ABC"))
    );
}

#[test]
fn request_line_spacing() {
    assert_eq!(
        callback_url("  GET\t /callback?code=XYZ&state=s"),
        Some(String::from("http://localhost:8888/callback?code=XYZ&state=s"))
    );
}

#[test]
fn request_line_without_target() {
    assert_eq!(callback_url("GET"), None);
    assert_eq!(callback_url("GET   \r\n"), None);
    assert_eq!(callback_url(""), None);
}

#[test]
fn success_reply_closes_page() {
    assert_eq!(success_response(), "HTTP/1.1 200 OK\r\n\r\n<script>window.close();</script>");
}
