//! The Notification Dispatcher's pure half: rendering the message and
//! framing the webhook payload. Sending it is I/O and happens outside
//! the library.

use vstd::prelude::*;
use vstd::string::StringExecFns;

use crate::bushfire::{Entry, EntryView};
use crate::stamp::{format_rfc2822, rfc2822_of, Timestamp};
use crate::text::opt_text_view;

verus! {

pub open spec fn opt_or(t: Option<Seq<char>>, d: Seq<char>) -> Seq<char> {
    match t {
        Some(s) => s,
        None => d,
    }
}

/// The publish stamp as shown to readers.
pub open spec fn spec_published_text(p: Option<Timestamp>) -> Seq<char> {
    match p {
        Some(ts) => match rfc2822_of(ts) {
            Some(s) => s,
            None => "unknown"@,
        },
        None => "unknown"@,
    }
}

/// The fixed-shape notification text for one entry.
pub open spec fn spec_notification(e: EntryView) -> Seq<char> {
    "#### \u{26a0}\u{fe0f} "@ + opt_or(e.category, "Unknown Category"@) + "\n\n**"@ + opt_or(
        e.title,
        "Untitled"@,
    ) + "**\n\n"@ + opt_or(e.content, "No content"@) + "\n\n**Published:** "@
        + spec_published_text(e.published) + "\n**Link:** "@
        + "https://www.qfes.qld.gov.au/Current-Incidents"@
}

fn push_opt(m: &mut String, t: &Option<String>, d: &str)
    ensures
        final(m)@ == old(m)@ + opt_or(opt_text_view(*t), d@),
{
    match t {
        Some(s) => m.append(s.as_str()),
        None => m.append(d),
    }
}

/// Render the message the Dispatcher delivers for `entry`.
pub fn notification_message(entry: &Entry) -> (r: String)
    ensures
        r@ == spec_notification(entry@),
{
    let mut m = String::from_str("#### \u{26a0}\u{fe0f} ");
    push_opt(&mut m, &entry.category, "Unknown Category");
    m.append("\n\n**");
    push_opt(&mut m, &entry.title, "Untitled");
    m.append("**\n\n");
    push_opt(&mut m, &entry.content, "No content");
    m.append("\n\n**Published:** ");
    match &entry.published {
        Some(ts) => match format_rfc2822(ts) {
            Some(s) => m.append(s.as_str()),
            None => m.append("unknown"),
        },
        None => m.append("unknown"),
    }
    m.append("\n**Link:** ");
    m.append("https://www.qfes.qld.gov.au/Current-Incidents");
    proof {
        assert(m@ =~= spec_notification(entry@));
    }
    m
}

/// What the json crate writes for the webhook's one-field object, a
/// `text` member holding the message.
pub uninterp spec fn json_text_payload_of(message: Seq<char>) -> Seq<char>;

/// Relies on json::stringify of an object with one "text" member; the
/// output is a function of the message alone.
#[verifier::external_body]
fn json_text_object(message: &str) -> (r: String)
    ensures
        r@ == json_text_payload_of(message@),
{
    let mut obj = json::object::Object::new();
    obj.insert("text", message.into());
    json::stringify(json::JsonValue::Object(obj))
}

/// The webhook's request body for one message.
pub fn webhook_body(message: &str) -> (r: String)
    ensures
        r@ == json_text_payload_of(message@),
{
    json_text_object(message)
}

} // verus!
