use seitai::segment::{parse_soundmoji, segment, Segment};

fn text(s: &str) -> Segment {
    Segment::Text(s.to_string())
}

#[test]
fn url_mid_line_splits_into_three_segments() {
    assert_eq!(
        segment("check http://a.b now"),
        vec![text("check"), Segment::UrlMarker, text("now")]
    );
}

#[test]
fn whitespace_only_yields_nothing() {
    assert_eq!(segment(""), Vec::<Segment>::new());
    assert_eq!(segment("  "), Vec::<Segment>::new());
    assert_eq!(segment(" \t \n  \n"), Vec::<Segment>::new());
}

#[test]
fn lines_are_trimmed_and_kept_in_order() {
    assert_eq!(
        segment("  hello \nworld\n\n third "),
        vec![text("hello"), text("world"), text("third")]
    );
}

#[test]
fn url_alone_is_one_marker() {
    assert_eq!(segment("https://example.com/x?y=z"), vec![Segment::UrlMarker]);
}

#[test]
fn url_runs_to_whitespace() {
    assert_eq!(
        segment("a http://x.y/path,with(stuff) b"),
        vec![text("a"), Segment::UrlMarker, text("b")]
    );
}

#[test]
fn two_urls_and_text_keep_order() {
    assert_eq!(
        segment("one http://a two ftp://b three"),
        vec![
            text("one"),
            Segment::UrlMarker,
            text("two"),
            Segment::UrlMarker,
            text("three"),
        ]
    );
}

#[test]
fn scheme_needs_following_content() {
    // `://` with nothing after it is not a URL.
    assert_eq!(segment("weird:// "), vec![text("weird://")]);
}

#[test]
fn soundmoji_line_becomes_reference() {
    assert_eq!(
        segment("<sound:123>"),
        vec![Segment::SoundboardRef { sound_id: 123, guild_id: None }]
    );
    assert_eq!(
        segment(" <sound:12:34> "),
        vec![Segment::SoundboardRef { sound_id: 12, guild_id: Some(34) }]
    );
}

#[test]
fn soundmoji_must_fill_the_line() {
    assert_eq!(segment("x <sound:1>"), vec![text("x <sound:1>")]);
}

#[test]
fn malformed_soundmoji_is_text() {
    assert_eq!(segment("<sound:12a>"), vec![text("<sound:12a>")]);
    assert_eq!(segment("<sound:>"), vec![text("<sound:>")]);
    assert_eq!(segment("<sound:1:>"), vec![text("<sound:1:>")]);
}

#[test]
fn parse_soundmoji_accepts_ids() {
    assert_eq!(parse_soundmoji("<sound:5>"), Some((5, None)));
    assert_eq!(parse_soundmoji("<sound:5:77>"), Some((5, Some(77))));
    // The largest 64-bit id fits.
    assert_eq!(
        parse_soundmoji("<sound:18446744073709551615>"),
        Some((u64::MAX, None))
    );
    // Leading zeros make the run long but the value still fits.
    assert_eq!(
        parse_soundmoji("<sound:00000000000000000000123:007>"),
        Some((123, Some(7)))
    );
}

#[test]
fn parse_soundmoji_rejects_overflowing_ids() {
    // One past the largest 64-bit id is not a token.
    assert_eq!(parse_soundmoji("<sound:18446744073709551616>"), None);
    assert_eq!(parse_soundmoji("<sound:99999999999999999999>"), None);
    assert_eq!(parse_soundmoji("<sound:1:99999999999999999999>"), None);
    assert_eq!(parse_soundmoji("sound:1>"), None);
    assert_eq!(parse_soundmoji(""), None);
}

#[test]
fn unicode_whitespace_is_trimmed() {
    // No-break space and ideographic space count as whitespace.
    assert_eq!(segment("\u{00A0}"), Vec::<Segment>::new());
    assert_eq!(segment("\u{3000} \u{2003}"), Vec::<Segment>::new());
    assert_eq!(segment("\u{00A0}hello\u{3000}"), vec![text("hello")]);
}

#[test]
fn mixed_message_keeps_segment_order() {
    assert_eq!(
        segment("hello http://x.y <sound:1>\n<sound:2>\nworld"),
        vec![
            text("hello"),
            Segment::UrlMarker,
            Segment::SoundboardRef { sound_id: 1, guild_id: None },
            Segment::SoundboardRef { sound_id: 2, guild_id: None },
            text("world"),
        ]
    );
}
