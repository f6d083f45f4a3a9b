use eight::error::Error;
use eight::memory::Storage;
use eight::messaging::{Request, Response};
use eight::permission::Permission;
use eight::server::{decide, Action, Executor};
use eight::table::StringMap;

#[test]
fn test_server() {
    let mut server = Executor::new(Storage::new());
    server.execute(Request::SetKey("test".into(), "iyi".into()));
    if let Response::Text(value) = server.execute(Request::Get("test".into())) {
        assert_eq!(value, "iyi".to_string());
    } else {
        panic!();
    }
    server.execute(Request::Flush);
}

#[test]
fn simple_server() {
    let mut server = Executor::new(Storage::new());
    assert_eq!(server.execute(Request::SetKey("test".into(), "iyi".into())), Response::Okay);
    if let Response::Text(value) = server.execute(Request::Get("test".into())) {
        assert_eq!(value, "iyi".to_string());
    } else {
        panic!();
    }
    server.execute(Request::Flush);
}

#[test]
fn test_server_simple_storage() {
    let mut server = Executor::new(Storage::new());
    server.execute(Request::SetKey("naber".into(), "iyi".into()));
    server.execute(Request::Flush);
}

fn run_increment_decrement() {
    let mut server = Executor::new(Storage::new());
    server.execute(Request::SetKey("test".into(), "10".into()));
    if let Response::Text(value) = server.execute(Request::Get("test".into())) {
        assert_eq!(value, "10".to_string());
    } else {
        panic!();
    }
    server.execute(Request::Increment("test".into(), 10));
    server.execute(Request::Decrement("test".into(), 5));
    if let Response::Text(value) = server.execute(Request::Get("test".into())) {
        assert_eq!(value, "15".to_string());
    } else {
        panic!();
    }
    server.execute(Request::Flush);
}

#[test]
fn test_increment_decrement() {
    run_increment_decrement();
}

#[test]
fn increment_decrement() {
    run_increment_decrement();
}

#[test]
fn basic_set_get_flush() {
    let mut server = Executor::new(Storage::new());
    assert_eq!(server.execute(Request::SetKey("bob".into(), "sid".into())), Response::Okay);
    assert_eq!(server.execute(Request::Get("bob".into())), Response::Text("sid".into()));
    assert_eq!(server.execute(Request::Flush), Response::Okay);
    assert_eq!(server.execute(Request::Exists("bob".into())), Response::Boolean(false));
}

#[test]
fn invalid_keys_answer_errors() {
    let mut server = Executor::new(Storage::new());
    assert_eq!(
        server.execute(Request::SetKey("a".into(), "v".into())),
        Response::Error(Error::KeyTooShort)
    );
    assert_eq!(
        server.execute(Request::SetKey("a!".into(), "v".into())),
        Response::Error(Error::KeyWrongFormat)
    );
}

#[test]
fn permission_denial_and_restore() {
    let mut server = Executor::new(Storage::new());
    server.set_permission(Permission::Guest);
    assert_eq!(
        server.execute(Request::SetKey("kk".into(), "v".into())),
        Response::Error(Error::PermissionFailure)
    );
    server.set_permission(Permission::Owner);
    assert_eq!(server.execute(Request::SetKey("kk".into(), "v".into())), Response::Okay);
}

#[test]
fn permission_tiers() {
    let get = Request::Get("kk".into());
    let set = Request::SetKey("kk".into(), "v".into());
    assert!(Permission::Guest.is_allowed(&get));
    assert!(!Permission::Guest.is_allowed(&set));
    assert!(Permission::Admin.is_allowed(&set));
    assert!(!Permission::Admin.is_allowed(&Request::Flush));
    assert!(Permission::Owner.is_allowed(&Request::Flush));
    assert_eq!(Permission::Guest.allowed(&set), Err(Error::PermissionFailure));
    assert_eq!(Permission::Owner.allowed(&set), Ok(()));
    assert_eq!(Permission::default(), Permission::Owner);
}

#[test]
fn lowering_reaches_guest() {
    assert_eq!(Permission::Owner.lower(), Permission::Admin);
    assert_eq!(Permission::Owner.lower().lower(), Permission::Guest);
    assert_eq!(Permission::Guest.lower(), Permission::Guest);
    let mut server = Executor::new(Storage::new());
    assert_eq!(server.execute(Request::DowngradePermission), Response::Okay);
    assert_eq!(server.permission(), Permission::Admin);
    assert_eq!(server.execute(Request::Flush), Response::Error(Error::PermissionFailure));
    server.execute(Request::DowngradePermission);
    server.execute(Request::DowngradePermission);
    assert_eq!(server.permission(), Permission::Guest);
}

#[test]
fn test_query() {
    let mut server = Executor::new(Storage::new());
    let mut env = StringMap::new();
    env.insert("user".into(), "icecat".into());
    env.insert("val".into(), "hello world!".into());

    let results = server
        .query(
            r#"
        # an example comment
        set $user $val; # hello!
        get $user;
        # delete $user (commented out)
        flush;
        "#
            .to_string(),
            env,
        )
        .unwrap();

    assert_eq!(results[0], Response::Okay);
    assert_eq!(results[1], Response::Text("hello world!".to_string()));
}

#[test]
fn query_with_env() {
    let mut server = Executor::new(Storage::new());
    let mut env = StringMap::new();
    env.insert("user".into(), "icecat".into());
    env.insert("val".into(), "hello world!".into());
    let results = server.query("set $user $val; get $user;".to_string(), env).unwrap();
    assert_eq!(results, vec![Response::Okay, Response::Text("hello world!".into())]);
}

#[test]
fn query_spawn_gives_no_answer() {
    let mut server = Executor::new(Storage::new());
    let mut env = StringMap::new();
    env.insert("k".into(), "ab".into());
    let results = server.query("set? $k v; get $k;".to_string(), env).unwrap();
    assert_eq!(results.len(), 1);
    assert!(
        results[0] == Response::Text("v".into())
            || results[0] == Response::Error(Error::GetKeyFail)
    );
}

#[test]
fn query_stops_at_parse_error() {
    let mut server = Executor::new(Storage::new());
    let err = server.query("set only_one_arg;".to_string(), StringMap::new()).unwrap_err();
    assert!(err.message().contains("line 1"));
    assert!(err.message().contains("requires two (2) argument"));
    let err = server
        .query("set ab cd; bogus; get ab;".to_string(), StringMap::new())
        .unwrap_err();
    assert_eq!(err, Error::CommandError("Command not found".into(), 1, 16));
}

#[test]
fn query_counts_awaited_statements() {
    let mut server = Executor::new(Storage::new());
    let results = server
        .query("set ab 1; incr? ab 2; incr ab 3; exists ab; search a; delete ab;".to_string(), StringMap::new())
        .unwrap();
    assert_eq!(results.len(), 5);
    assert_eq!(results[1], Response::Number(6));
    assert_eq!(results[2], Response::Boolean(true));
    assert_eq!(results[3], Response::TextList(vec!["ab".to_string()]));
    assert_eq!(results[4], Response::Okay);
}

#[test]
fn error_as_response_and_message() {
    assert_eq!(Error::GetKeyFail.as_response(), Response::Error(Error::GetKeyFail));
    assert_eq!(
        Error::CommandError("Bad".into(), 3, 14).message(),
        "Bad (line 3, column 14)"
    );
    assert_eq!(Error::PermissionFailure.message(), "You don't have a permission to perform this operation");
}

#[test]
fn dispatch_decisions() {
    assert_eq!(
        decide(Permission::Guest, Request::Flush),
        Action::Reply(Response::Error(Error::PermissionFailure))
    );
    assert_eq!(decide(Permission::Owner, Request::DowngradePermission), Action::Lower(Permission::Admin));
    assert_eq!(
        decide(Permission::Admin, Request::Get("ab".into())),
        Action::Perform(Request::Get("ab".into()))
    );
}
