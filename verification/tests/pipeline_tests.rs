use blog::codeblock::CodeBlockRenderer;
use blog::db::PostsStore;
use blog::error::Error;
use blog::id::Id;
use blog::pipeline::apply_full_scan;
use blog::pipeline::apply_rename;
use blog::pipeline::apply_update;
use blog::pipeline::classify;
use blog::pipeline::collect_successes;
use blog::pipeline::Action;
use blog::pipeline::FsEvent;
use blog::post::RenderedPost;
use blog::time::datetime_unix_seconds;
use blog::time::Timestamp;
use blog::uuid::Uuid;

fn ns() -> Uuid {
    Uuid::from_u128(7)
}

fn parse_named(name: &str, published: i64) -> Result<RenderedPost, Error> {
    let renderer = CodeBlockRenderer::new();
    let id = Id::from_file_name(name).expect("valid file name");
    let source = format!("title = \"T\"\nauthor = \"A\"\npublished = {}\n---\nbody", published);
    RenderedPost::new_from_str(&renderer, ns(), id, Some(datetime_unix_seconds(1)), &source)
}

fn parse_bad(name: &str) -> Result<RenderedPost, Error> {
    let renderer = CodeBlockRenderer::new();
    let id = Id::from_file_name(name).expect("valid file name");
    RenderedPost::new_from_str(&renderer, ns(), id, None, "no header here")
}

#[test]
fn classify_create_and_write_on_valid_names() {
    match classify(&FsEvent::Create { name: "a.toml.md".to_string() }) {
        Action::Update { id } => assert_eq!(id.as_inner().as_str(), "a"),
        _ => panic!("expected update"),
    }
    match classify(&FsEvent::Write { name: "a.toml.md".to_string() }) {
        Action::Update { id } => assert_eq!(id.as_inner().as_str(), "a"),
        _ => panic!("expected update"),
    }
}

#[test]
fn classify_ignores_other_files() {
    match classify(&FsEvent::Create { name: "notes.txt".to_string() }) {
        Action::Ignore => {},
        _ => panic!("expected ignore"),
    }
    match classify(&FsEvent::Remove { name: "sub.dir".to_string() }) {
        Action::Ignore => {},
        _ => panic!("expected ignore"),
    }
}

#[test]
fn classify_remove_and_rescan() {
    match classify(&FsEvent::Remove { name: "a.toml.md".to_string() }) {
        Action::Remove { id } => assert_eq!(id.as_inner().as_str(), "a"),
        _ => panic!("expected remove"),
    }
    match classify(&FsEvent::Rescan) {
        Action::Scan => {},
        _ => panic!("expected scan"),
    }
}

#[test]
fn classify_rename_resolves_both_ends() {
    match classify(&FsEvent::Rename {
        old_name: "old.toml.md".to_string(),
        new_name: "new.toml.md".to_string(),
    }) {
        Action::Rename { old_id, new_id } => {
            assert_eq!(old_id.as_inner().as_str(), "old");
            assert_eq!(new_id.as_inner().as_str(), "new");
        },
        _ => panic!("expected rename"),
    }
    match classify(&FsEvent::Rename {
        old_name: "junk.txt".to_string(),
        new_name: "new.toml.md".to_string(),
    }) {
        Action::Update { id } => assert_eq!(id.as_inner().as_str(), "new"),
        _ => panic!("expected update"),
    }
    match classify(&FsEvent::Rename {
        old_name: "old.toml.md".to_string(),
        new_name: "junk.txt".to_string(),
    }) {
        Action::Remove { id } => assert_eq!(id.as_inner().as_str(), "old"),
        _ => panic!("expected remove"),
    }
    match classify(&FsEvent::Rename {
        old_name: "a.txt".to_string(),
        new_name: "b.txt".to_string(),
    }) {
        Action::Ignore => {},
        _ => panic!("expected ignore"),
    }
}

#[test]
fn update_with_parse_failure_leaves_store_untouched() {
    let mut store = PostsStore::new();
    apply_update(&mut store, parse_named("x.toml.md", 10));
    assert_eq!(store.iter().len(), 1);
    apply_update(&mut store, parse_bad("x.toml.md"));
    assert_eq!(store.iter().len(), 1);
    assert_eq!(store.get("x").expect("still present").published(), Timestamp { secs: 10, nanos: 0 });
}

#[test]
fn rename_is_atomic_for_readers_after_it() {
    let mut store = PostsStore::new();
    apply_update(&mut store, parse_named("old.toml.md", 10));
    let doc = parse_named("new.toml.md", 20);
    apply_rename(&mut store, "old", doc);
    assert!(store.get("old").is_none());
    let new_doc = store.get("new").expect("present");
    assert_eq!(new_doc.published(), Timestamp { secs: 20, nanos: 0 });
    assert_eq!(store.iter().len(), 1);
}

#[test]
fn rename_with_failed_parse_still_removes_the_old_name() {
    let mut store = PostsStore::new();
    apply_update(&mut store, parse_named("old.toml.md", 10));
    apply_rename(&mut store, "old", parse_bad("new.toml.md"));
    assert!(store.get("old").is_none());
    assert!(store.get("new").is_none());
    assert_eq!(store.iter().len(), 0);
}

#[test]
fn collect_successes_skips_failures() {
    let results = vec![parse_bad("a.toml.md"), parse_named("b.toml.md", 2), parse_bad("c.toml.md")];
    let docs = collect_successes(results);
    assert_eq!(docs.len(), 1);
    assert_eq!(docs[0].id().as_inner().as_str(), "b");
}

#[test]
fn full_scan_replaces_the_store_atomically() {
    let mut store = PostsStore::new();
    apply_update(&mut store, parse_named("stale.toml.md", 1));
    // directory holds {a.toml.md, b.toml.md} where a fails to parse
    let results = vec![parse_bad("a.toml.md"), parse_named("b.toml.md", 2)];
    let docs = collect_successes(results);
    apply_full_scan(&mut store, docs);
    // exactly {b}: no mix of the previous store and the new contents
    assert_eq!(store.iter().len(), 1);
    assert!(store.get("a").is_none());
    assert!(store.get("stale").is_none());
    assert!(store.get("b").is_some());
}

#[test]
fn full_scan_with_duplicate_identifiers_keeps_the_later_one() {
    let mut store = PostsStore::new();
    let docs = collect_successes(vec![
        parse_named("x.toml.md", 10),
        parse_named("x.toml.md", 20),
    ]);
    apply_full_scan(&mut store, docs);
    assert_eq!(store.iter().len(), 1);
    assert_eq!(store.get("x").expect("present").published(), Timestamp { secs: 20, nanos: 0 });
}
