use blog::crawler::CrawlerHints;
use blog::header::Header;
use blog::id::Id;
use blog::source::PostSource;
use blog::time::datetime_unix;
use blog::time::datetime_unix_seconds;
use blog::time::unix_epoch;
use blog::time::Timestamp;

#[test]
fn id_from_valid_file_name() {
    let id = Id::from_file_name("hello-world.toml.md").expect("valid");
    assert_eq!(id.as_inner().as_str(), "hello-world");
    assert_eq!(id.into_inner().as_str(), "hello-world");
}

#[test]
fn id_rejects_wrong_suffix_and_bad_characters() {
    assert!(Id::from_file_name("hello.md").is_none());
    assert!(Id::from_file_name("hello").is_none());
    assert!(Id::from_file_name("a.b.toml.md").is_none());
    assert!(Id::from_file_name("dir/x.toml.md").is_none());
    assert!(Id::from_file_name("dir\\x.toml.md").is_none());
}

#[test]
fn id_equality_and_order() {
    let a = Id::from_file_name("aa.toml.md").expect("valid");
    let a2 = Id::from_file_name("aa.toml.md").expect("valid");
    let b = Id::from_file_name("ab.toml.md").expect("valid");
    assert!(a.eq_id(&a2));
    assert!(!a.eq_id(&b));
    assert!(a.eq_str("aa"));
    assert!(a.lt(&b));
    assert!(!b.lt(&a));
    assert!(!a.lt(&a2));
}

#[test]
fn timestamps_order_lexicographically() {
    let early = datetime_unix(5, 10);
    let later_nanos = datetime_unix(5, 11);
    let later_secs = datetime_unix(6, 0);
    assert!(early.lt(&later_nanos));
    assert!(early.lt(&later_secs));
    assert!(!later_secs.lt(&early));
    assert!(early.le(&early));
    assert_eq!(unix_epoch(), Timestamp { secs: 0, nanos: 0 });
    assert_eq!(datetime_unix_seconds(42), Timestamp { secs: 42, nanos: 0 });
}

#[test]
fn source_split_on_first_delimiter() {
    let src = PostSource::from_str("header text\n---\nbody\n---\nmore").expect("splits");
    assert_eq!(src.header().as_str(), "header text");
    assert_eq!(src.markdown().as_str(), "body\n---\nmore");
}

#[test]
fn source_split_requires_delimiter() {
    assert!(PostSource::from_str("just some text").is_err());
}

#[test]
fn header_accessors_read_and_write() {
    let mut h = Header {
        title: "t".to_string(),
        subtitle: None,
        author: "a".to_string(),
        tags: vec!["x".to_string()],
        published: datetime_unix_seconds(3),
    };
    assert_eq!(h.title().as_str(), "t");
    assert_eq!(h.author().as_str(), "a");
    assert_eq!(h.tags().len(), 1);
    assert_eq!(h.published(), datetime_unix_seconds(3));
    assert!(h.subtitle().is_none());
    *h.title_mut() = "t2".to_string();
    *h.subtitle_mut() = Some("s".to_string());
    h.tags_mut().push("y".to_string());
    *h.author_mut() = "a2".to_string();
    *h.published_mut() = datetime_unix_seconds(9);
    assert_eq!(h.title().as_str(), "t2");
    assert_eq!(h.subtitle().as_deref(), Some("s"));
    assert_eq!(h.author().as_str(), "a2");
    assert_eq!(h.tags().len(), 2);
    assert_eq!(h.published(), datetime_unix_seconds(9));
}

#[test]
fn crawler_hints_restrictive_meta_list() {
    let hints = CrawlerHints::restrictive();
    assert_eq!(
        hints.meta_list().as_str(),
        "noindex,nofollow,noarchive,nocache,nosnippet,noimageindex",
    );
}

#[test]
fn crawler_hints_permissive_meta_list() {
    assert_eq!(CrawlerHints::permissive().meta_list().as_str(), "index,follow");
}

#[test]
fn crawler_hints_mixed_meta_list() {
    let hints = CrawlerHints::permissive().with_archive(false);
    assert_eq!(hints.meta_list().as_str(), "index,follow,noarchive,nocache");
    let hints = CrawlerHints::restrictive().with_index(true).with_follow(true).with_archive(
        true,
    ).with_image_index(true);
    assert_eq!(hints.meta_list().as_str(), "index,follow,nosnippet");
    let hints = CrawlerHints::permissive().with_snippet(false);
    assert_eq!(hints.meta_list().as_str(), "index,follow,nosnippet");
}

#[test]
fn crawler_hints_words() {
    let h = CrawlerHints::restrictive();
    assert_eq!(h.index_str(), "noindex");
    assert_eq!(h.follow_str(), "nofollow");
    assert_eq!(h.archive_strs(), Some(["noarchive", "nocache"]));
    assert_eq!(h.snippet_str(), Some("nosnippet"));
    assert_eq!(h.image_index_str(), Some("noimageindex"));
    let p = CrawlerHints::permissive();
    assert_eq!(p.index_str(), "index");
    assert_eq!(p.follow_str(), "follow");
    assert_eq!(p.archive_strs(), None);
    assert_eq!(p.snippet_str(), None);
    assert_eq!(p.image_index_str(), None);
    let mut buf = String::from("robots: ");
    h.write_meta_list_to(&mut buf);
    assert_eq!(buf.as_str(), "robots: noindex,nofollow,noarchive,nocache,nosnippet,noimageindex");
}
