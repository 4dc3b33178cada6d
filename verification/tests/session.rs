use corvus::message::{Context, Message, ToolCall};
use corvus::session::{session_id_of, DirEntry, SessionFile, SessionStore, StorePath};

fn parts(path: &StorePath) -> Vec<&str> {
    let mut all = vec![path.root.as_str()];
    all.extend(path.parts.iter().map(|p| p.as_str()));
    all
}

fn entry(file_name: &str, modified: i128) -> DirEntry {
    DirEntry {
        file_name: file_name.to_string(),
        modified,
    }
}

#[test]
fn round_trips_transcript_with_visibility() {
    let store = SessionStore::new("roundtrip");

    let mut ctx = Context::new();
    ctx.push(Message::user("你好"));
    ctx.push(Message::assistant_tool_call(vec![ToolCall {
        id: "c1".to_string(),
        name: "bash".to_string(),
        arguments: r#"{"command":"ls"}"#.to_string(),
    }]));
    ctx.push(Message::approval_pending());
    ctx.push(Message::approval_answer("y"));

    let saved = store.save("s1", &ctx);
    let restored = store.load(saved.file).expect("the current version");

    assert_eq!(restored.messages.len(), ctx.messages.len());
    assert!(restored.messages[1].user_visible && restored.messages[1].agent_visible);
    assert!(!restored.messages[2].user_visible && !restored.messages[2].agent_visible);
    assert!(restored.messages[3].content == "y");
    assert_eq!(restored.pending_tool_calls().len(), 1);
}

#[test]
fn latest_prefers_most_recently_modified() {
    let store = SessionStore::new("latest");
    let entries = vec![entry("older.json", -60), entry("newer.json", 0)];
    assert_eq!(store.latest(&entries).as_deref(), Some("newer"));
}

#[test]
fn rejects_unknown_schema_version() {
    let store = SessionStore::new("schema");
    let err = store
        .load(SessionFile {
            schema_version: 999,
            id: "s1".to_string(),
            context: Context::new(),
        })
        .unwrap_err()
        .message();
    assert!(err.contains("schema 版本不匹配"), "{err}");
    assert_eq!(err, "会话 schema 版本不匹配：文件为 999，当前程序支持 1");
}

#[test]
fn a_session_without_faults_and_usages_is_new_evidence() {
    let store = SessionStore::new("legacy");
    let mut ctx = Context::new();
    ctx.push(Message::user("hi"));
    let ctx = store.load(store.save("s1", &ctx).file).expect("the current version");
    assert_eq!(ctx.messages.len(), 1);
    assert_eq!(ctx.messages[0].usage, None);
    assert_eq!(ctx.messages[0].error_kind, None);
    assert!(ctx.has_new_evidence_since_compaction());
}

#[test]
fn transcripts_and_workspaces_lie_in_subtrees_of_their_own() {
    let store = SessionStore::new(&SessionStore::default_root());
    assert_eq!(parts(&store.sessions_dir()), vec![".corvus", "sessions"]);
    assert_eq!(
        parts(&store.session_path("s1")),
        vec![".corvus", "sessions", "s1.json"]
    );
    assert_eq!(
        parts(&store.workspace_dir("s1")),
        vec![".corvus", "workspaces", "s1"]
    );
    assert_eq!(
        parts(&store.temporary_path("s1")),
        vec![".corvus", "sessions", "s1.json.tmp"]
    );
    let prepared = store.prepare("s1");
    assert_eq!(prepared.len(), 2);
    assert_eq!(parts(&prepared[0]), vec![".corvus", "sessions"]);
    assert_eq!(parts(&prepared[1]), vec![".corvus", "workspaces", "s1"]);

    let saved = store.clone().save("s1", &Context::new());
    assert_eq!(parts(&saved.path), vec![".corvus", "sessions", "s1.json"]);
    assert_eq!(
        parts(&saved.temporary),
        vec![".corvus", "sessions", "s1.json.tmp"]
    );
    assert_eq!(saved.directories.len(), 2);
    assert_eq!(saved.file.schema_version, 1);
    assert_eq!(saved.file.id, "s1");
}

#[test]
fn sessions_are_listed_from_the_last_modified_to_the_first() {
    let store = SessionStore::new("x");
    let entries = vec![
        entry("b.json", 2),
        entry("notes.txt", 9),
        entry("c.json", 3),
        entry("a.json", 1),
        entry("c.json.tmp", 9),
        entry("d.json", 3),
        entry(".json", 9),
    ];
    assert_eq!(store.list(&entries), vec!["c", "d", "b", "a"]);
    assert_eq!(store.latest(&entries).as_deref(), Some("c"));
    assert!(store.list(&vec![]).is_empty());
    assert_eq!(store.latest(&vec![entry("notes.txt", 1)]), None);
}

#[test]
fn file_names_stand_for_sessions() {
    for (name, id) in [
        ("s1.json", Some("s1")),
        ("a.b.json", Some("a.b")),
        ("..json", Some(".")),
        (".json", None),
        ("json", None),
        ("s1.JSON", None),
        ("s1.json.tmp", None),
        ("s1", None),
        ("", None),
        ("会话.json", Some("会话")),
    ] {
        assert_eq!(session_id_of(name).as_deref(), id, "{name}");
    }
}
