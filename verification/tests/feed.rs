use wizards_bot::bushfire::{check, parse_feed, BushfireError, Entry, EntryId};
use wizards_bot::geo::{near, parse_coordinate, parse_point, GeoPoint};
use wizards_bot::stamp::Timestamp;

fn pt(lat: i64, lon: i64) -> GeoPoint {
    GeoPoint { lat, lon }
}

#[test]
fn test_near() {
    let brisbane = pt(-27_468_440_000_000, 153_023_340_000_000);
    // Ocean View (near Caboolture)
    let ocean_view = pt(-27_127_664_662_091, 152_879_020_547_210);
    let noosa = pt(-26_400_054_000_000, 153_022_342_100_000);

    assert!(near(brisbane, ocean_view, 50));
    assert!(!near(brisbane, noosa, 50));
}

#[test]
fn near_box_is_half_open() {
    // 111 km is one degree, so the offset is exactly 10^12 picodegrees.
    let point = pt(0, 0);
    let lower = pt(-1_000_000_000_000, 0);
    let upper = pt(1_000_000_000_000, 0);
    assert!(near(lower, point, 111));
    assert!(!near(upper, point, 111));
}

#[test]
fn coordinates_read_exactly() {
    assert_eq!(parse_coordinate("-27.584701903466"), Some(-27_584_701_903_466));
    assert_eq!(parse_coordinate("151.06082028616"), Some(151_060_820_286_160));
    assert_eq!(parse_coordinate("+2.5"), Some(2_500_000_000_000));
    assert_eq!(parse_coordinate("5."), Some(5_000_000_000_000));
    assert_eq!(parse_coordinate("0.1234567890129"), Some(123_456_789_012));
    assert_eq!(parse_coordinate(""), None);
    assert_eq!(parse_coordinate("1e5"), None);
    assert_eq!(parse_coordinate(".5"), None);
    assert_eq!(parse_coordinate("12345678"), None);
}

#[test]
fn point_takes_first_two_readable_tokens() {
    assert_eq!(
        parse_point("  -27.5 153.25 "),
        Some(pt(-27_500_000_000_000, 153_250_000_000_000))
    );
    assert_eq!(
        parse_point("x -27.5 153.25"),
        Some(pt(-27_500_000_000_000, 153_250_000_000_000))
    );
    assert_eq!(parse_point("-27.5"), None);
    assert_eq!(parse_point(""), None);
}

#[test]
fn parse_entry() {
    let xml = r#"<?xml version="1.0" encoding="UTF-8"?>
<feed xmlns:georss="http://www.georss.org/georss" xmlns="http://www.w3.org/2005/Atom">
    <author>
        <name>Queensland Fire and Emergency Services</name>
    </author>
    <generator uri="http://www.safe.com/products/fme/index.php" version="2022.7.44.22623">FME(R) 2022.1.1.0</generator>
    <id>IF39-1924522</id>
    <link href="https://www.qfes.qld.gov.au"/>
    <subtitle>QFES Bushfire Alerts updated regularly</subtitle>
    <title>QFES Bushfire Alert Feed</title>
    <updated>2023-09-09T10:12:08+10:00</updated>
    <entry>
        <author>
          <name>Queensland Fire and Emergency Services</name>
        </author>
        <category term="Watch and Act"/>
        <content>A large fire is burning in the Kumbarilla State Forest and Dunmore State Forest. It is travelling towards Wilkin Road within the Dunmore State Forest.

          Conditions could get worse quickly.

          Firefighters are working to contain the fire. You should not expect a firefighter at your door. Firefighting aircraft are helping ground crews.

          If your life is in danger, call Triple Zero (000) immediately.</content>
        <id>IF39-1919322</id>
        <published>2023-09-08T17:12:08+10:00</published>
        <title>PREPARE TO LEAVE - Cecil Plains and Dunmore (near Kumbarilla) - fire as at  3:52pm Friday,  8 September 2023</title>
        <updated>2023-09-08T15:41:00+10:00</updated>
        <georss:point>-27.584701903466 151.06082028616</georss:point>
    </entry>
</feed>"#;

    let expected = Entry {
        category: Some("Watch and Act".to_string()),
        content: Some("A large fire is burning in the Kumbarilla State Forest and Dunmore State Forest. It is travelling towards Wilkin Road within the Dunmore State Forest.

          Conditions could get worse quickly.

          Firefighters are working to contain the fire. You should not expect a firefighter at your door. Firefighting aircraft are helping ground crews.

          If your life is in danger, call Triple Zero (000) immediately.".to_string()),
        id: EntryId("IF39-1919322".to_string()),
        published: Some(Timestamp {
            year: 2023,
            month: 9,
            day: 8,
            hour: 17,
            minute: 12,
            second: 8,
            nanosecond: 0,
            offset_seconds: 36_000,
        }),
        title: Some("PREPARE TO LEAVE - Cecil Plains and Dunmore (near Kumbarilla) - fire as at  3:52pm Friday,  8 September 2023".to_string()),
        updated: Some(Timestamp {
            year: 2023,
            month: 9,
            day: 8,
            hour: 15,
            minute: 41,
            second: 0,
            nanosecond: 0,
            offset_seconds: 36_000,
        }),
        point: Some(pt(-27_584_701_903_466, 151_060_820_286_160)),
    };

    let entries = parse_feed(xml).unwrap();
    assert_eq!(entries.len(), 1);
    assert_eq!(entries[0], expected);
}

#[test]
fn feed_without_entries_is_empty() {
    let xml = r#"<?xml version="1.0" encoding="UTF-8"?>
<feed xmlns="http://www.w3.org/2005/Atom">
    <id>IF39-1924522</id>
    <title>QFES Bushfire Alert Feed</title>
</feed>"#;
    let entries = parse_feed(xml).unwrap();
    assert!(entries.is_empty());
}

#[test]
fn entry_of_other_namespace_is_ignored() {
    let xml = r#"<?xml version="1.0" encoding="UTF-8"?>
<feed xmlns="http://example.com/not-the-feed">
    <entry>
        <id>IF39-0000000</id>
    </entry>
</feed>"#;
    let entries = parse_feed(xml).unwrap();
    assert!(entries.is_empty());
}

#[test]
fn malformed_document_is_an_error() {
    let r = parse_feed("<feed><entry></feed>");
    assert!(matches!(r, Err(BushfireError::Xml(_))));
}

#[test]
fn bad_point_leaves_entry_near() {
    let xml = r#"<?xml version="1.0" encoding="UTF-8"?>
<feed xmlns:georss="http://www.georss.org/georss" xmlns="http://www.w3.org/2005/Atom">
    <entry>
        <id>IF39-1</id>
        <georss:point>not numbers</georss:point>
    </entry>
</feed>"#;
    let entries = parse_feed(xml).unwrap();
    assert_eq!(entries.len(), 1);
    assert_eq!(entries[0].point, None);
    // fail-safe: an entry of unknown location is always in range
    assert!(entries[0].near(pt(0, 0)));
    let kept = check(xml, pt(0, 0)).unwrap();
    assert_eq!(kept.len(), 1);
}

#[test]
fn check_keeps_near_entries_only() {
    let xml = r#"<?xml version="1.0" encoding="UTF-8"?>
<feed xmlns:georss="http://www.georss.org/georss" xmlns="http://www.w3.org/2005/Atom">
    <entry>
        <id>IF39-A</id>
        <georss:point>-27.584701903466 151.06082028616</georss:point>
    </entry>
    <entry>
        <id>IF39-B</id>
        <georss:point>10.0 10.0</georss:point>
    </entry>
</feed>"#;
    // a reference right on the first entry's point
    let reference = pt(-27_584_701_903_466, 151_060_820_286_160);
    let kept = check(xml, reference).unwrap();
    assert_eq!(kept.len(), 1);
    assert_eq!(kept[0].id, EntryId("IF39-A".to_string()));
}

#[test]
fn error_messages_read_as_reported() {
    assert_eq!(
        BushfireError::Http("boom".to_string()).message(),
        "HTTP request error: boom"
    );
    assert_eq!(
        BushfireError::Io("disk".to_string()).message(),
        "I/O error: disk"
    );
    assert_eq!(
        BushfireError::Xml("line 1".to_string()).message(),
        "unable to parse XML: line 1"
    );
}
