use wizards_bot::bushfire::{Entry, EntryId};
use wizards_bot::notify::{notification_message, webhook_body};
use wizards_bot::slash::{mattermost_token, nit_slash_command, route, verify_token, Route};
use wizards_bot::stamp::Timestamp;
use wizards_bot::text::is_blank;

#[test]
fn routing_by_path_and_method() {
    assert_eq!(route("/", false), Route::Home);
    assert_eq!(route("/", true), Route::Home);
    assert_eq!(route("/nit", true), Route::NitCommand);
    assert_eq!(route("/nit", false), Route::NotFound);
    assert_eq!(route("/style.css", false), Route::Stylesheet);
    assert_eq!(route("/missing", false), Route::NotFound);
}

#[test]
fn token_comparison_is_exact() {
    let expected = mattermost_token("s3cret");
    assert_eq!(expected, "Token s3cret");
    assert!(verify_token(expected.as_str(), "Token s3cret"));
    assert!(!verify_token(expected.as_str(), "Token other"));
    assert!(!verify_token(expected.as_str(), "s3cret"));
}

#[test]
fn blankness() {
    assert!(is_blank(""));
    assert!(is_blank(" \t\r\n"));
    assert!(!is_blank(" a "));
}

fn form_headers() -> Vec<(String, String)> {
    vec![
        ("content-type".to_string(), "application/x-www-form-urlencoded".to_string()),
        ("authorization".to_string(), "Token s3cret".to_string()),
    ]
}

#[test]
fn command_requires_content_type_header() {
    let headers = vec![("authorization".to_string(), "Token s3cret".to_string())];
    let (body, status) = nit_slash_command(&headers, "Token s3cret", None);
    assert_eq!(status, 400);
    assert_eq!(body, "{\n  \"error\": \"Content-Type header not found\"\n}");
}

#[test]
fn command_requires_authorization_header() {
    let headers = vec![(
        "content-type".to_string(),
        "application/x-www-form-urlencoded".to_string(),
    )];
    let (body, status) = nit_slash_command(&headers, "Token s3cret", None);
    assert_eq!(status, 400);
    assert_eq!(body, "{\n  \"error\": \"Authorization header not found\"\n}");
}

#[test]
fn command_rejects_other_content_types() {
    let headers = vec![
        ("content-type".to_string(), "application/json".to_string()),
        ("authorization".to_string(), "Token s3cret".to_string()),
    ];
    let (body, status) = nit_slash_command(&headers, "Token s3cret", None);
    assert_eq!(status, 400);
    assert_eq!(body, "{\n  \"error\": \"Bad request\"\n}");
}

#[test]
fn command_rejects_a_wrong_token() {
    let (body, status) = nit_slash_command(&form_headers(), "Token other", None);
    assert_eq!(status, 401);
    assert_eq!(body, "{\n  \"error\": \"Not authorised\"\n}");
}

#[test]
fn command_reports_an_unreadable_body() {
    let (body, status) = nit_slash_command(&form_headers(), "Token s3cret", None);
    assert_eq!(status, 500);
    assert_eq!(body, "{\n  \"error\": \"Internal server error\"\n}");
}

#[test]
fn command_rewrites_the_text_field() {
    let form = b"text=https%3A%2F%2Ftwitter.com%2Fwezm".to_vec();
    let (body, status) = nit_slash_command(&form_headers(), "Token s3cret", Some(&form));
    assert_eq!(status, 200);
    assert_eq!(
        body,
        "{\n  \"response_type\": \"in_channel\",\n  \"text\": \"https://nitter.net/wezm ([source](https://twitter.com/wezm))\"\n}"
    );
}

#[test]
fn command_asks_for_text_when_blank() {
    let form = b"text=%20%20".to_vec();
    let (body, status) = nit_slash_command(&form_headers(), "Token s3cret", Some(&form));
    assert_eq!(status, 200);
    assert_eq!(
        body,
        "{\n  \"response_type\": \"ephemeral\",\n  \"text\": \"You need to supply some text\"\n}"
    );
    let empty = b"other=1".to_vec();
    let (body2, status2) = nit_slash_command(&form_headers(), "Token s3cret", Some(&empty));
    assert_eq!(status2, 200);
    assert_eq!(body2, body);
}

fn bare_entry() -> Entry {
    Entry {
        category: None,
        content: None,
        id: EntryId("IF39-1".to_string()),
        published: None,
        title: None,
        updated: None,
        point: None,
    }
}

#[test]
fn notification_fills_placeholders() {
    let msg = notification_message(&bare_entry());
    assert_eq!(
        msg,
        "#### \u{26a0}\u{fe0f} Unknown Category\n\n**Untitled**\n\nNo content\n\n**Published:** unknown\n**Link:** https://www.qfes.qld.gov.au/Current-Incidents"
    );
}

#[test]
fn notification_renders_fields() {
    let mut e = bare_entry();
    e.category = Some("Watch and Act".to_string());
    e.title = Some("PREPARE TO LEAVE".to_string());
    e.content = Some("A large fire is burning.".to_string());
    e.published = Some(Timestamp {
        year: 2023,
        month: 9,
        day: 8,
        hour: 17,
        minute: 12,
        second: 8,
        nanosecond: 0,
        offset_seconds: 36_000,
    });
    let msg = notification_message(&e);
    assert_eq!(
        msg,
        "#### \u{26a0}\u{fe0f} Watch and Act\n\n**PREPARE TO LEAVE**\n\nA large fire is burning.\n\n**Published:** Fri, 08 Sep 2023 17:12:08 +1000\n**Link:** https://www.qfes.qld.gov.au/Current-Incidents"
    );
}

#[test]
fn webhook_body_is_a_text_object() {
    assert_eq!(webhook_body("hello"), "{\"text\":\"hello\"}");
    assert_eq!(webhook_body("say \"hi\""), "{\"text\":\"say \\\"hi\\\"\"}");
}
