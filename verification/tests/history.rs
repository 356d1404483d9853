use tokamak::binary64::Binary64;
use tokamak::history::{
    branch_count, is_listable, list_sessions, migrate, path_indices, session_file, summarize,
    validate_id, Session, StoredTurn,
};

fn turn(id: Option<&str>, parent: Option<&str>, content: &str) -> StoredTurn {
    StoredTurn {
        id: id.map(Into::into),
        parent: parent.map(Into::into),
        role: "user".into(),
        kind: None,
        tool_name: None,
        content: content.into(),
        thinking: None,
        tokens: None,
        decode_tok_s: None,
        stopped: None,
        finish: None,
        error: None,
        timestamp_ms: 0,
        sampler: None,
    }
}

fn session(turns: Vec<StoredTurn>, head: Option<&str>) -> Session {
    Session {
        id: "s".into(),
        kind: "chat".into(),
        title: "t".into(),
        model_name: None,
        model_path: None,
        binary_label: None,
        n_gpu_layers: None,
        ctx_size: None,
        workspace: None,
        created_ms: 0,
        updated_ms: 0,
        head: head.map(Into::into),
        turns,
    }
}

fn contents(turns: &[StoredTurn], head: Option<&str>) -> Vec<String> {
    path_indices(turns, head)
        .into_iter()
        .map(|i| turns[i].content.clone())
        .collect()
}

/// The property the whole migration rests on: a file without ids must describe
/// exactly the same conversation afterwards, in the same order, with nothing added
/// or dropped.
#[test]
fn migration_preserves_the_transcript() {
    let before: Vec<String> = ["a", "b", "c", "d"].iter().map(|s| s.to_string()).collect();
    let mut s = session(before.iter().map(|c| turn(None, None, c)).collect(), None);
    migrate(&mut s);
    assert!(s.turns.iter().all(|t| t.id.is_some()));
    assert_eq!(s.turns[0].parent, None, "the first turn is the root");
    assert_eq!(contents(&s.turns, s.head.as_deref()), before);
}

fn text(v: &serde_json::Value, key: &str) -> String {
    v[key].as_str().unwrap().to_string()
}

fn opt_text(v: &serde_json::Value, key: &str) -> Option<String> {
    v.get(key).and_then(|x| x.as_str()).map(str::to_string)
}

/// A genuine old file: no `id`, no `parent`, no `head` anywhere in the JSON.
#[test]
fn legacy_json_parses_and_migrates() {
    let json = r#"{
            "id": "1784357022134-696nw", "kind": "chat", "title": "old",
            "created_ms": 1, "updated_ms": 2,
            "turns": [
                {"role": "user", "content": "hi", "timestamp_ms": 1},
                {"role": "assistant", "content": "hello", "timestamp_ms": 2}
            ]
        }"#;
    let v: serde_json::Value = serde_json::from_str(json).unwrap();
    let turns = v["turns"]
        .as_array()
        .unwrap()
        .iter()
        .map(|t| {
            let mut out = turn(None, None, &text(t, "content"));
            out.id = opt_text(t, "id");
            out.parent = opt_text(t, "parent");
            out.role = text(t, "role");
            out.timestamp_ms = t["timestamp_ms"].as_u64().unwrap();
            out
        })
        .collect();
    let mut s = session(turns, opt_text(&v, "head").as_deref());
    s.id = text(&v, "id");
    assert_eq!(s.head, None);
    migrate(&mut s);
    assert_eq!(contents(&s.turns, s.head.as_deref()), vec!["hi", "hello"]);
    assert_eq!(branch_count(&s.turns), 1, "a linear session has one leaf");
}

/// Migration must not invent edges in a file that already has them.
#[test]
fn migration_leaves_existing_edges_alone() {
    let mut s = session(
        vec![
            turn(Some("a"), None, "root"),
            turn(Some("b"), Some("a"), "left"),
            turn(None, Some("a"), "right"),
        ],
        Some("a"),
    );
    migrate(&mut s);
    assert_eq!(s.turns[2].parent.as_deref(), Some("a"), "edge preserved");
    assert!(s.turns[2].id.is_some(), "missing id backfilled");
    assert_eq!(branch_count(&s.turns), 2);
}

#[test]
fn path_follows_the_selected_branch() {
    let turns = vec![
        turn(Some("a"), None, "root"),
        turn(Some("b"), Some("a"), "left"),
        turn(Some("c"), Some("a"), "right"),
        turn(Some("d"), Some("c"), "right-2"),
    ];
    assert_eq!(contents(&turns, Some("b")), vec!["root", "left"]);
    assert_eq!(contents(&turns, Some("d")), vec!["root", "right", "right-2"]);
    assert_eq!(branch_count(&turns), 2);
}

/// `head` of `None` means "the last turn".
#[test]
fn absent_head_resolves_to_the_last_turn() {
    let turns = vec![
        turn(Some("a"), None, "root"),
        turn(Some("b"), Some("a"), "mid"),
        turn(Some("c"), Some("b"), "tip"),
    ];
    assert_eq!(contents(&turns, None), vec!["root", "mid", "tip"]);
}

/// A head naming a turn that is not in the pool must not silently render
/// an empty transcript; fall back to the last turn.
#[test]
fn dangling_head_falls_back_rather_than_emptying() {
    let turns = vec![turn(Some("a"), None, "root"), turn(Some("b"), Some("a"), "tip")];
    assert_eq!(contents(&turns, Some("ghost")), vec!["root", "tip"]);
}

/// A hand-edited file could contain a cycle. Truncating is acceptable;
/// hanging the history rail is not.
#[test]
fn cyclic_parents_terminate() {
    let turns = vec![turn(Some("a"), Some("b"), "a"), turn(Some("b"), Some("a"), "b")];
    let path = path_indices(&turns, Some("a"));
    assert!(path.len() <= turns.len());
}

#[test]
fn unmigrated_pool_reads_as_a_plain_transcript() {
    let turns = vec![
        turn(None, None, "one"),
        turn(None, None, "two"),
        turn(None, None, "three"),
    ];
    assert_eq!(contents(&turns, None), vec!["one", "two", "three"]);
}

#[test]
fn empty_pool_has_no_path_and_no_branches() {
    assert!(path_indices(&[], None).is_empty());
    assert_eq!(branch_count(&[]), 0);
    // its own link does not make a turn an inner one
    assert_eq!(branch_count(&[turn(Some("a"), Some("a"), "a")]), 1);
    assert_eq!(
        branch_count(&[turn(Some("a"), Some("a"), "a"), turn(Some("b"), Some("a"), "b")]),
        1
    );
}

#[test]
fn id_validation_blocks_traversal() {
    assert!(validate_id("20260718-093301-ab12").is_ok());
    assert!(validate_id("..\\evil").is_err());
    assert!(validate_id("../evil").is_err());
    assert!(validate_id("a/b").is_err());
    assert!(validate_id("").is_err());
    assert!(validate_id(&"x".repeat(80)).is_err());
}

#[test]
fn sessions_are_kept_in_files_named_by_their_ids() {
    assert_eq!(session_file("20260718-ab"), "20260718-ab.json");
    assert!(validate_id(&"x".repeat(64)).is_ok());
    assert!(validate_id(&"x".repeat(65)).is_err());
}

#[test]
fn migrating_twice_changes_nothing_more() {
    let mut s = session(vec![turn(None, None, "a"), turn(None, None, "b")], None);
    migrate(&mut s);
    let ids: Vec<_> = s.turns.iter().map(|t| (t.id.clone(), t.parent.clone())).collect();
    assert_eq!(ids[1].1, ids[0].0);
    migrate(&mut s);
    let again: Vec<_> = s.turns.iter().map(|t| (t.id.clone(), t.parent.clone())).collect();
    assert_eq!(ids, again);
}

#[test]
fn a_summary_counts_tokens_and_averages_speeds() {
    let mut a = turn(Some("a"), None, "q");
    a.tokens = Some(10);
    a.decode_tok_s = Some(Binary64 { bits: 30.0f64.to_bits() });
    let mut b = turn(Some("b"), Some("a"), "x");
    b.tokens = Some(5);
    b.decode_tok_s = Some(Binary64 { bits: 60.0f64.to_bits() });
    let c = turn(Some("c"), Some("a"), "y");
    let s = session(vec![a, b, c], Some("b"));
    assert!(is_listable(&s));
    let m = summarize(&s);
    assert_eq!(m.total_tokens, 15);
    assert_eq!(m.turn_count, 2);
    assert_eq!(m.branch_count, 2);
    assert_eq!(f64::from_bits(m.avg_decode_tok_s.bits), 45.0);
}

#[test]
fn tokens_that_cannot_be_counted_are_told() {
    let mut a = turn(Some("a"), None, "q");
    a.tokens = Some(u64::MAX);
    let mut b = turn(Some("b"), Some("a"), "x");
    b.tokens = Some(1);
    assert!(!is_listable(&session(vec![a.clone(), b], None)));
    assert!(is_listable(&session(vec![a], None)));
}

#[test]
fn the_newest_session_is_listed_first() {
    let mut old = session(vec![], None);
    old.id = "old".into();
    old.updated_ms = 1;
    let mut new = session(vec![], None);
    new.id = "new".into();
    new.updated_ms = 9;
    let mut twin = session(vec![], None);
    twin.id = "twin".into();
    twin.updated_ms = 9;
    let rows = list_sessions(&vec![old, new, twin]);
    let ids: Vec<&str> = rows.iter().map(|r| r.id.as_str()).collect();
    assert_eq!(ids, ["new", "twin", "old"]);
}
