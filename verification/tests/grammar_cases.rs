use papyrus::Tag;
use papyrus::TagParseErr;

#[test]
fn user_body_round_trip() {
    assert_eq!(Tag::from_str("user:42"), Ok(Tag::User(42)));
    assert_eq!(Tag::from_str("user:0"), Ok(Tag::User(0)));
    assert_eq!(Tag::from_str("user:12345"), Ok(Tag::User(12345)));
}

#[test]
fn article_body_round_trip() {
    assert_eq!(Tag::from_str("article:7"), Ok(Tag::Article(7)));
    assert_eq!(Tag::from_str("article:4294967295"), Ok(Tag::Article(4294967295)));
}

#[test]
fn pattern_matches_anywhere_in_body() {
    assert_eq!(Tag::from_str("xxuser:5yy"), Ok(Tag::User(5)));
    assert_eq!(Tag::from_str("see article:9 here"), Ok(Tag::Article(9)));
}

#[test]
fn user_pattern_tried_first() {
    assert_eq!(Tag::from_str("article:1 and user:2"), Ok(Tag::User(2)));
}

#[test]
fn whitespace_before_colon() {
    assert_eq!(Tag::from_str("user \t:9"), Ok(Tag::User(9)));
}

#[test]
fn whitespace_after_colon_does_not_match() {
    assert_eq!(
        Tag::from_str("user: 5"),
        Err(TagParseErr::UnknownTag("[user: 5]".to_string()))
    );
}

#[test]
fn unknown_body_is_rewrapped_in_brackets() {
    assert_eq!(
        Tag::from_str("unknown"),
        Err(TagParseErr::UnknownTag("[unknown]".to_string()))
    );
    assert_eq!(
        Tag::from_str(""),
        Err(TagParseErr::UnknownTag("[]".to_string()))
    );
}

#[test]
fn colon_must_follow_the_kind_word() {
    assert_eq!(
        Tag::from_str("user 5"),
        Err(TagParseErr::UnknownTag("[user 5]".to_string()))
    );
}

#[test]
fn digits_must_follow_the_colon() {
    assert_eq!(
        Tag::from_str("user:x"),
        Err(TagParseErr::UnknownTag("[user:x]".to_string()))
    );
}

#[test]
fn overflowing_identifier() {
    assert_eq!(
        Tag::from_str("user:999999999999999999999999999999"),
        Err(TagParseErr::CaptureParseErr)
    );
}

#[test]
fn largest_identifier() {
    let body = format!("user:{}", usize::MAX);
    assert_eq!(Tag::from_str(&body), Ok(Tag::User(usize::MAX)));
    let over = format!("user:{}0", usize::MAX);
    assert_eq!(Tag::from_str(&over), Err(TagParseErr::CaptureParseErr));
}
