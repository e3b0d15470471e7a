use blog::codeblock::CodeBlockRenderer;
use blog::decode::HeaderError;
use blog::decode::HeaderField;
use blog::error::Error;
use blog::id::Id;
use blog::post::RenderedPost;
use blog::time::datetime_unix_seconds;
use blog::time::Timestamp;
use blog::uuid::Uuid;

fn renderer() -> CodeBlockRenderer {
    CodeBlockRenderer::new()
}

fn ns() -> Uuid {
    Uuid::from_u128(0x6ba7b8109dad11d180b400c04fd430c8)
}

fn id(name: &str) -> Id {
    Id::from_file_name(name).expect("valid post file name")
}

fn parse(source: &str) -> Result<RenderedPost, Error> {
    RenderedPost::new_from_str(
        &renderer(),
        ns(),
        id("hello.toml.md"),
        Some(datetime_unix_seconds(5)),
        source,
    )
}

#[test]
fn parse_full_post() {
    let source = "title = \"My Post\"\nsubtitle = \"More\"\nauthor = \"Someone\"\ntags = [\"a\", \"b\"]\npublished = 100\n---\nhello *world*";
    let post = parse(source).expect("parses");
    assert_eq!(post.title().as_str(), "My Post");
    assert_eq!(post.subtitle().as_deref(), Some("More"));
    assert_eq!(post.author().as_str(), "Someone");
    assert_eq!(post.tags().len(), 2);
    assert_eq!(post.tags()[0].as_str(), "a");
    assert_eq!(post.tags()[1].as_str(), "b");
    assert_eq!(post.published(), Timestamp { secs: 100, nanos: 0 });
    assert_eq!(post.updated(), Timestamp { secs: 5, nanos: 0 });
    assert_eq!(post.id().as_inner().as_str(), "hello");
    assert_eq!(post.html().as_str(), "<p>hello <em>world</em></p>\n");
}

#[test]
fn parse_defaults() {
    let source = "title = \"T\"\nauthor = \"A\"\n---\nbody";
    let post = parse(source).expect("parses");
    assert_eq!(post.subtitle(), &None);
    assert!(post.tags().is_empty());
    assert_eq!(post.published(), Timestamp { secs: 0, nanos: 0 });
}

#[test]
fn parse_updated_defaults_to_epoch() {
    let source = "title = \"T\"\nauthor = \"A\"\n---\nbody";
    let post = RenderedPost::new_from_str(&renderer(), ns(), id("hello.toml.md"), None, source)
        .expect("parses");
    assert_eq!(post.updated(), Timestamp { secs: 0, nanos: 0 });
}

#[test]
fn parse_comments_blanks_and_escapes() {
    let source =
        "# a comment\n\ntitle = \"a \\\"quote\\\" and \\\\ and \\n\"\nauthor = \"A\"\n---\nbody";
    let post = parse(source).expect("parses");
    assert_eq!(post.title().as_str(), "a \"quote\" and \\ and \n");
}

#[test]
fn parse_negative_published() {
    let source = "title = \"T\"\nauthor = \"A\"\npublished = -5\n---\nbody";
    let post = parse(source).expect("parses");
    assert_eq!(post.published(), Timestamp { secs: -5, nanos: 0 });
}

#[test]
fn parse_empty_tags() {
    let source = "title = \"T\"\nauthor = \"A\"\ntags = []\n---\nbody";
    let post = parse(source).expect("parses");
    assert!(post.tags().is_empty());
}

#[test]
fn parse_missing_delimiter() {
    match parse("title = \"T\"\nauthor = \"A\"\nbody") {
        Err(Error::NoDelim) => {},
        other => panic!("expected missing delimiter, got {:?}", other.is_ok()),
    }
}

#[test]
fn parse_missing_title() {
    let source = "author = \"A\"\n---\nbody";
    match parse(source) {
        Err(Error::Header(HeaderError::Missing(HeaderField::Title))) => {},
        other => panic!("expected missing title, got {:?}", other.is_ok()),
    }
}

#[test]
fn parse_missing_author() {
    let source = "title = \"T\"\n---\nbody";
    match parse(source) {
        Err(Error::Header(HeaderError::Missing(HeaderField::Author))) => {},
        other => panic!("expected missing author, got {:?}", other.is_ok()),
    }
}

#[test]
fn parse_invalid_published() {
    let source = "title = \"T\"\nauthor = \"A\"\npublished = abc\n---\nbody";
    match parse(source) {
        Err(Error::Header(HeaderError::Invalid(HeaderField::Published))) => {},
        other => panic!("expected invalid published, got {:?}", other.is_ok()),
    }
}

#[test]
fn parse_overflowing_published() {
    let source = "title = \"T\"\nauthor = \"A\"\npublished = 99999999999999999999999999\n---\nbody";
    match parse(source) {
        Err(Error::Header(HeaderError::Invalid(HeaderField::Published))) => {},
        other => panic!("expected invalid published, got {:?}", other.is_ok()),
    }
}

#[test]
fn parse_duplicate_author() {
    let source = "title = \"T\"\nauthor = \"A\"\nauthor = \"B\"\n---\nbody";
    match parse(source) {
        Err(Error::Header(HeaderError::Duplicate(HeaderField::Author))) => {},
        other => panic!("expected duplicate author, got {:?}", other.is_ok()),
    }
}

#[test]
fn parse_unknown_key() {
    let source = "title = \"T\"\nauthor = \"A\"\ncolour = \"red\"\n---\nbody";
    match parse(source) {
        Err(Error::Header(HeaderError::UnknownKey)) => {},
        other => panic!("expected unknown key, got {:?}", other.is_ok()),
    }
}

#[test]
fn parse_bad_line() {
    let source = "title = \"T\"\nauthor = \"A\"\nnonsense line\n---\nbody";
    match parse(source) {
        Err(Error::Header(HeaderError::BadLine)) => {},
        other => panic!("expected bad line, got {:?}", other.is_ok()),
    }
}

#[test]
fn parse_invalid_tags() {
    let source = "title = \"T\"\nauthor = \"A\"\ntags = [\"a\",]\n---\nbody";
    match parse(source) {
        Err(Error::Header(HeaderError::Invalid(HeaderField::Tags))) => {},
        other => panic!("expected invalid tags, got {:?}", other.is_ok()),
    }
}

#[test]
fn parse_unterminated_title() {
    let source = "title = \"T\nauthor = \"A\"\n---\nbody";
    match parse(source) {
        Err(Error::Header(HeaderError::Invalid(HeaderField::Title))) => {},
        other => panic!("expected invalid title, got {:?}", other.is_ok()),
    }
}

#[test]
fn uuid_is_deterministic_per_identifier() {
    let source = "title = \"T\"\nauthor = \"A\"\n---\nbody";
    let a1 = parse(source).expect("parses");
    let a2 = parse(source).expect("parses");
    assert_eq!(a1.uuid(), a2.uuid());
    let b = RenderedPost::new_from_str(&renderer(), ns(), id("other.toml.md"), None, source)
        .expect("parses");
    assert_ne!(a1.uuid(), b.uuid());
    assert_ne!(a1.uuid(), ns());
}

#[test]
fn markdown_body_leading_whitespace_trimmed() {
    let source = "title = \"T\"\nauthor = \"A\"\n---\n\n\n  body";
    let post = parse(source).expect("parses");
    assert_eq!(post.html().as_str(), "<p>body</p>\n");
}

#[test]
fn error_messages_name_the_field() {
    assert_eq!(Error::NoDelim.message().as_str(), "post has no header; no delimiter found");
    assert_eq!(
        Error::Header(HeaderError::Missing(HeaderField::Title)).message().as_str(),
        "error decoding post header: missing required header field: title",
    );
    assert_eq!(
        HeaderError::Invalid(HeaderField::Published).message().as_str(),
        "malformed header field: published",
    );
    assert_eq!(HeaderError::UnknownKey.message().as_str(), "unknown header key");
}
