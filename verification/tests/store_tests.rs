use blog::codeblock::CodeBlockRenderer;
use blog::db::PostsStore;
use blog::id::Id;
use blog::post::RenderedPost;
use blog::time::datetime_unix_seconds;
use blog::time::Timestamp;
use blog::uuid::Uuid;

fn ns() -> Uuid {
    Uuid::from_u128(0x1234_5678_9abc_def0_1234_5678_9abc_def0)
}

fn make_post(
    renderer: &CodeBlockRenderer,
    file_name: &str,
    tags: &[&str],
    published: i64,
    updated: i64,
) -> RenderedPost {
    let id = Id::from_file_name(file_name).expect("valid file name");
    let tag_items: Vec<String> = tags.iter().map(|t| format!("\"{}\"", t)).collect();
    let source = format!(
        "title = \"T\"\nauthor = \"A\"\ntags = [{}]\npublished = {}\n---\nbody",
        tag_items.join(", "),
        published,
    );
    RenderedPost::new_from_str(renderer, ns(), id, Some(datetime_unix_seconds(updated)), &source)
        .expect("parses")
}

#[test]
fn get_insert_remove_roundtrip() {
    let renderer = CodeBlockRenderer::new();
    let mut store = PostsStore::new();
    assert!(store.get("x").is_none());
    let old = store.insert(make_post(&renderer, "x.toml.md", &["t"], 10, 1));
    assert!(old.is_none());
    let got = store.get("x").expect("present");
    assert_eq!(got.id().as_inner().as_str(), "x");
    assert_eq!(got.published(), Timestamp { secs: 10, nanos: 0 });
    let removed = store.remove("x").expect("was present");
    assert_eq!(removed.id().as_inner().as_str(), "x");
    assert!(store.get("x").is_none());
    assert!(store.remove("x").is_none());
}

#[test]
fn insert_supersedes_and_returns_old() {
    let renderer = CodeBlockRenderer::new();
    let mut store = PostsStore::new();
    store.insert(make_post(&renderer, "x.toml.md", &["old_tag"], 10, 1));
    let old = store
        .insert(make_post(&renderer, "x.toml.md", &["new_tag"], 20, 2))
        .expect("superseded");
    assert_eq!(old.published(), Timestamp { secs: 10, nanos: 0 });
    assert_eq!(store.iter().len(), 1);
    // supersession: the old document's tag no longer carries x
    let old_tagged = store.tag_members("old_tag");
    assert!(old_tagged.iter().all(|i| i.as_inner().as_str() != "x"));
    let new_tagged = store.tag_members("new_tag");
    assert!(new_tagged.iter().any(|i| i.as_inner().as_str() == "x"));
    assert_eq!(store.get("x").expect("present").published(), Timestamp { secs: 20, nanos: 0 });
}

#[test]
fn insert_same_document_twice_changes_nothing() {
    let renderer = CodeBlockRenderer::new();
    let mut store = PostsStore::new();
    store.insert(make_post(&renderer, "a.toml.md", &["t", "u"], 10, 1));
    store.insert(make_post(&renderer, "x.toml.md", &["t"], 30, 3));
    store.insert(make_post(&renderer, "x.toml.md", &["t"], 30, 3));
    assert_eq!(store.iter().len(), 2);
    assert_eq!(store.iter_by_published().len(), 2);
    let t_members = store.tag_members("t");
    assert_eq!(t_members.len(), 2);
    let u_members = store.tag_members("u");
    assert_eq!(u_members.len(), 1);
    assert_eq!(store.get("x").expect("present").published(), Timestamp { secs: 30, nanos: 0 });
}

#[test]
fn publish_order_ascending_and_reversible() {
    let renderer = CodeBlockRenderer::new();
    let mut store = PostsStore::new();
    store.insert(make_post(&renderer, "a.toml.md", &[], 100, 1));
    store.insert(make_post(&renderer, "b.toml.md", &[], 300, 1));
    store.insert(make_post(&renderer, "c.toml.md", &[], 200, 1));
    let ordered = store.iter_by_published();
    let names: Vec<String> = ordered.iter().map(|p| p.id().as_inner().clone()).collect();
    assert_eq!(names, vec!["a".to_string(), "c".to_string(), "b".to_string()]);
    let newest_first: Vec<String> =
        ordered.iter().rev().map(|p| p.id().as_inner().clone()).collect();
    assert_eq!(newest_first, vec!["b".to_string(), "c".to_string(), "a".to_string()]);
}

#[test]
fn publish_order_ties_break_by_identifier() {
    let renderer = CodeBlockRenderer::new();
    let mut store = PostsStore::new();
    store.insert(make_post(&renderer, "zb.toml.md", &[], 100, 1));
    store.insert(make_post(&renderer, "za.toml.md", &[], 100, 1));
    let names: Vec<String> =
        store.iter_by_published().iter().map(|p| p.id().as_inner().clone()).collect();
    assert_eq!(names, vec!["za".to_string(), "zb".to_string()]);
}

#[test]
fn last_updated_is_the_maximum() {
    let renderer = CodeBlockRenderer::new();
    let mut store = PostsStore::new();
    assert!(store.last_updated().is_none());
    store.insert(make_post(&renderer, "a.toml.md", &[], 1, 10));
    store.insert(make_post(&renderer, "b.toml.md", &[], 2, 30));
    store.insert(make_post(&renderer, "c.toml.md", &[], 3, 20));
    assert_eq!(store.last_updated(), Some(Timestamp { secs: 30, nanos: 0 }));
}

#[test]
fn clear_empties_everything() {
    let renderer = CodeBlockRenderer::new();
    let mut store = PostsStore::new();
    store.insert(make_post(&renderer, "a.toml.md", &["t"], 1, 1));
    store.insert(make_post(&renderer, "b.toml.md", &["t"], 2, 2));
    store.clear();
    assert_eq!(store.iter().len(), 0);
    assert!(store.get("a").is_none());
    assert!(store.tag_members("t").is_empty());
    assert!(store.last_updated().is_none());
    assert!(store.iter_by_published().is_empty());
}

#[test]
fn readers_holding_a_document_keep_the_old_one() {
    let renderer = CodeBlockRenderer::new();
    let mut store = PostsStore::new();
    store.insert(make_post(&renderer, "x.toml.md", &[], 10, 1));
    let held = store.get("x").expect("present");
    store.insert(make_post(&renderer, "x.toml.md", &[], 20, 2));
    // the handle taken before the update still reads the old document
    assert_eq!(held.published(), Timestamp { secs: 10, nanos: 0 });
    assert_eq!(store.get("x").expect("present").published(), Timestamp { secs: 20, nanos: 0 });
}
