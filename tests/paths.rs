use eight::client::QueryBuilder;
use eight::error::Error;
use eight::keys::{check_key, create_path, get_file_name, search_plan, select_matches, validate_key};
use eight::runtime::QueryExecutor;
use eight::parser::CallType;
use eight::messaging::Request;
use eight::table::StringMap;

#[test]
fn key_paths_are_two_character_chunks() {
    assert_eq!(
        create_path("hello").unwrap(),
        vec!["he".to_string(), "ll".to_string(), "o".to_string(), "$".to_string()]
    );
    assert_eq!(
        create_path("abcd").unwrap(),
        vec!["ab".to_string(), "cd".to_string(), "$".to_string()]
    );
    assert_eq!(create_path("a"), Err(Error::KeyTooShort));
    assert_eq!(create_path("a!"), Err(Error::KeyWrongFormat));
}

#[test]
fn key_validation() {
    assert!(validate_key("abc_123XYZ"));
    assert!(!validate_key("ab-c"));
    assert!(!validate_key("çok"));
    assert_eq!(check_key("ab"), Ok(()));
    assert_eq!(check_key(""), Err(Error::KeyTooShort));
}

#[test]
fn joined_path_gives_key_back() {
    let parts = vec!["re".to_string(), "su".to_string(), "lt".to_string(), "7".to_string()];
    assert_eq!(get_file_name(&parts), "result7");
}

#[test]
fn search_plans() {
    let plan = search_plan("res").unwrap();
    assert_eq!(plan.dirs, vec!["re".to_string()]);
    assert_eq!(plan.first_char, Some('s'));
    assert_eq!(plan.depth, 1);
    let plan = search_plan("").unwrap();
    assert!(plan.dirs.is_empty());
    assert_eq!(plan.first_char, None);
    let plan = search_plan("r").unwrap();
    assert!(plan.dirs.is_empty());
    assert_eq!(plan.first_char, Some('r'));
    assert!(search_plan("r!").is_err());
}

#[test]
fn matches_are_filtered_by_prefix() {
    let found = select_matches(
        vec!["result1".to_string(), "rest".to_string(), "rx".to_string()],
        "res",
    );
    assert_eq!(found, vec!["result1".to_string(), "rest".to_string()]);
}

#[test]
fn query_executor_steps() {
    let mut env = StringMap::new();
    env.insert("k".into(), "ab".into());
    let mut run = QueryExecutor::new("get $k; set? $k v; nope;".to_string(), env);
    assert_eq!(run.next_call(), Some(Ok(CallType::Await(Request::Get("ab".into())))));
    assert_eq!(
        run.next_call(),
        Some(Ok(CallType::Spawn(Request::SetKey("ab".into(), "v".into()))))
    );
    assert!(matches!(run.next_call(), Some(Err(Error::CommandError(..)))));
    assert_eq!(run.next_call(), None);
}

#[test]
fn query_builder_fields() {
    let req = QueryBuilder::from_id("abc")
        .add_query("set $user 0;")
        .add_query("get $user;")
        .bind("user", "bob")
        .collect();
    assert_eq!(req.id, "abc");
    assert_eq!(req.query, "set $user 0;\nget $user;\n");
    assert_eq!(req.vars.get("user"), Some("bob".to_string()));

    let req = QueryBuilder::new().set_query("flush;".to_string()).set_random_id().collect();
    assert_eq!(req.id.len(), 16);
    assert!(req.id.chars().all(|c| c.is_ascii_alphanumeric()));
    assert_eq!(req.query, "flush;");
    let other = QueryBuilder::new().set_random_id().collect();
    assert_ne!(req.id, other.id);
}

#[test]
fn string_map_replaces_and_removes() {
    let mut m = StringMap::new();
    m.insert("a".into(), "1".into());
    m.insert("a".into(), "2".into());
    assert_eq!(m.len(), 1);
    assert_eq!(m.get("a"), Some("2".to_string()));
    assert!(m.remove("a"));
    assert!(!m.remove("a"));
    assert!(!m.contains_key("a"));
}
