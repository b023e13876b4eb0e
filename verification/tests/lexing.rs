use papyrus::Position;
use papyrus::Tag;
use papyrus::TagParseErr;
use papyrus::Token;
use papyrus::TokenIter;
use papyrus::TokenizeErr;

/// Pulls every item out of a lexer over `s`, stopping at the end signal.
fn drain(s: &str) -> Vec<Result<Token, TokenizeErr>> {
    let mut it = TokenIter::new(s);
    let mut out = Vec::new();
    while let Some(item) = it.next() {
        out.push(item);
    }
    out
}

#[test]
fn parse_user() {
    assert_eq!(drain("[user:0]"), vec![Ok(Token::Tag(Tag::User(0)))]);
}

#[test]
fn parse_article() {
    assert_eq!(drain("[article:0]"), vec![Ok(Token::Tag(Tag::Article(0)))]);
}

#[test]
fn lib_parse_user() {
    assert_eq!(drain("[user:0]"), vec![Ok(Token::Tag(Tag::User(0)))]);
}

#[test]
fn lib_parse_article() {
    assert_eq!(drain("[article:0]"), vec![Ok(Token::Tag(Tag::Article(0)))]);
}

#[test]
fn line_err() {
    let tag = "\n[unknown]";
    assert_eq!(
        drain(tag),
        vec![
            Ok(Token::Text("\n".to_string())),
            Err(TokenizeErr::TagErr(
                Position::new(2),
                TagParseErr::UnknownTag(tag[1..].to_string())
            )),
        ]
    );
}

#[test]
fn parse_err() {
    let tag = "[unknown:0]";
    assert_eq!(
        drain(tag),
        vec![Err(TokenizeErr::TagErr(
            Position::new(1),
            TagParseErr::UnknownTag(tag.to_string())
        ))]
    );
}

#[test]
fn text_tag_text() {
    assert_eq!(
        drain("hello [user:5] world"),
        vec![
            Ok(Token::Text("hello ".to_string())),
            Ok(Token::Tag(Tag::User(5))),
            Ok(Token::Text(" world".to_string())),
        ]
    );
}

#[test]
fn unterminated_tag_still_matches() {
    assert_eq!(drain("[user:5"), vec![Ok(Token::Tag(Tag::User(5)))]);
}

#[test]
fn unterminated_unknown_tag() {
    assert_eq!(
        drain("[oops"),
        vec![Err(TokenizeErr::TagErr(
            Position::new(1),
            TagParseErr::UnknownTag("[oops]".to_string())
        ))]
    );
}

#[test]
fn end_signal_repeats() {
    let mut it = TokenIter::new("[user:1]");
    assert_eq!(it.next(), Some(Ok(Token::Tag(Tag::User(1)))));
    assert_eq!(it.next(), None);
    assert_eq!(it.next(), None);
    assert_eq!(it.next(), None);
}

#[test]
fn empty_input() {
    let mut it = TokenIter::new("");
    assert_eq!(it.next(), None);
    assert_eq!(it.next(), None);
}

#[test]
fn newline_in_text_run_counts() {
    assert_eq!(
        drain("a\nb\nc[bad]"),
        vec![
            Ok(Token::Text("a\nb\nc".to_string())),
            Err(TokenizeErr::TagErr(
                Position::new(3),
                TagParseErr::UnknownTag("[bad]".to_string())
            )),
        ]
    );
}

#[test]
fn newline_in_tag_body_counts() {
    assert_eq!(
        drain("[x\ny][z]"),
        vec![
            Err(TokenizeErr::TagErr(
                Position::new(1),
                TagParseErr::UnknownTag("[x\ny]".to_string())
            )),
            Err(TokenizeErr::TagErr(
                Position::new(2),
                TagParseErr::UnknownTag("[z]".to_string())
            )),
        ]
    );
}

#[test]
fn empty_bracket_body() {
    assert_eq!(
        drain("[]"),
        vec![Err(TokenizeErr::TagErr(
            Position::new(1),
            TagParseErr::UnknownTag("[]".to_string())
        ))]
    );
}

#[test]
fn traversal_continues_after_error() {
    assert_eq!(
        drain("[bad]ok[user:3]"),
        vec![
            Err(TokenizeErr::TagErr(
                Position::new(1),
                TagParseErr::UnknownTag("[bad]".to_string())
            )),
            Ok(Token::Text("ok".to_string())),
            Ok(Token::Tag(Tag::User(3))),
        ]
    );
}

#[test]
fn identifier_overflow_is_an_error() {
    assert_eq!(
        drain("[user:999999999999999999999999999999]"),
        vec![Err(TokenizeErr::TagErr(
            Position::new(1),
            TagParseErr::CaptureParseErr
        ))]
    );
}

#[test]
fn adjacent_tags() {
    assert_eq!(
        drain("[user:1][article:2]"),
        vec![
            Ok(Token::Tag(Tag::User(1))),
            Ok(Token::Tag(Tag::Article(2))),
        ]
    );
}
