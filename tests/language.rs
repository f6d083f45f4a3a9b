use eight::error::Error;
use eight::lexer::{lex, Lexer, Token};
use eight::messaging::Request;
use eight::parser::{CallType, Parser};
use eight::table::StringMap;

fn tokenize(input: &str) -> Vec<Token> {
    input
        .split(' ')
        .map(|t| Token {
            value: t.to_string(),
            line: 1,
            column: 1,
        })
        .collect()
}

fn sample_env() -> StringMap {
    let mut env = StringMap::new();
    env.insert("varA".to_string(), "A".to_string());
    env.insert("varB".to_string(), "B".to_string());
    env.insert("varC".to_string(), 1.to_string());
    env
}

fn check_sample_parses(parser: &Parser) {
    let a = "A".to_string();
    let b = "B".to_string();
    let c = 1;

    assert_eq!(
        parser.execute(tokenize("set $varA $varB")).unwrap(),
        CallType::Await(Request::SetKey(a.clone(), b.clone()))
    );
    assert_eq!(
        parser.execute(tokenize("get $varA")).unwrap(),
        CallType::Await(Request::Get(a.clone()))
    );
    assert_eq!(
        parser.execute(tokenize("delete $varA")).unwrap(),
        CallType::Await(Request::Delete(a.clone()))
    );
    assert_eq!(
        parser.execute(tokenize("incr $varA $varC")).unwrap(),
        CallType::Await(Request::Increment(a.clone(), c))
    );
    assert_eq!(
        parser.execute(tokenize("decr $varA $varC")).unwrap(),
        CallType::Await(Request::Decrement(a.clone(), c))
    );
    assert_eq!(
        parser.execute(tokenize("search $varA")).unwrap(),
        CallType::Await(Request::Search(a.clone()))
    );
    assert_eq!(
        parser.execute(tokenize("flush")).unwrap(),
        CallType::Await(Request::Flush)
    );
    assert_eq!(
        parser.execute(tokenize("downgrade")).unwrap(),
        CallType::Await(Request::DowngradePermission)
    );
    assert_eq!(
        parser.execute(tokenize("set? $varA $varB")).unwrap(),
        CallType::Spawn(Request::SetKey(a.clone(), b.clone()))
    );
}

#[test]
fn test_execute() {
    let parser = Parser::new(sample_env());
    check_sample_parses(&parser);
}

#[test]
fn test_execute_parser() {
    let parser = Parser::new(sample_env());
    check_sample_parses(&parser);
}

#[test]
fn test_execute_lexer() {
    let mut lex = Lexer::new(
        "this is lexer # comment; \n aftercomment ; \"stringwithoutspace\"; \"string \\\"with space\";".to_string()
    );
    lex.execute();

    assert_eq!(
        lex.collect(),
        vec![
            vec![
                Token {
                    value: "this".to_string(),
                    line: 1,
                    column: 4,
                },
                Token {
                    value: "is".to_string(),
                    line: 1,
                    column: 7,
                },
                Token {
                    value: "lexer".to_string(),
                    line: 1,
                    column: 13,
                },
                Token {
                    value: "aftercomment".to_string(),
                    line: 2,
                    column: 13,
                },
            ],
            vec![Token {
                value: "stringwithoutspace".to_string(),
                line: 2,
                column: 35,
            }],
            vec![Token {
                value: "string \"with space".to_string(),
                line: 2,
                column: 58,
            },]
        ]
    );
}

#[test]
fn test_lexer() {
    let input = "set \nlmao \"hello world\"; delete $qwe;".to_string();
    let result = lex(input);

    assert_eq!(result[0].len(), 3);
    assert_eq!(result[1].len(), 2);
}

#[test]
fn lexer_escape_keeps_quote_in_one_token() {
    let result = lex("\"string \\\"with space\"".to_string());
    assert_eq!(result.len(), 1);
    assert_eq!(result[0].len(), 1);
    assert_eq!(result[0][0].value, "string \"with space");
}

#[test]
fn lexer_empty_string_is_a_token() {
    let result = lex("set k \"\";".to_string());
    assert_eq!(result.len(), 1);
    assert_eq!(result[0].len(), 3);
    assert_eq!(result[0][2].value, "");
}

#[test]
fn lexer_drops_empty_statements_and_keeps_last() {
    let result = lex(";;get ab;; get cd".to_string());
    assert_eq!(result.len(), 2);
    assert_eq!(result[0][1].value, "ab");
    assert_eq!(result[1][1].value, "cd");
}

#[test]
fn trailing_separator_and_comment_change_nothing() {
    let plain = lex("set ab cd".to_string());
    let with_tail = lex("set ab cd; # note\n".to_string());
    assert_eq!(plain, with_tail);
    let parser = Parser::new(StringMap::new());
    let a = parser.execute(plain[0].clone()).unwrap();
    let b = parser.execute(with_tail[0].clone()).unwrap();
    assert_eq!(a, b);
}

#[test]
fn parser_errors_name_position() {
    let parser = Parser::new(StringMap::new());
    let stmts = lex("set only_one_arg;".to_string());
    let err = parser.execute(stmts[0].clone()).unwrap_err();
    assert_eq!(
        err,
        Error::CommandError("Set command requires two (2) argument".to_string(), 1, 3)
    );
    let text = err.message();
    assert!(text.contains("line 1"));
    assert!(text.contains("requires two (2) argument"));
}

#[test]
fn parser_rejects_unknown_and_uppercase_commands() {
    let parser = Parser::new(StringMap::new());
    let err = parser.execute(tokenize("SET a b")).unwrap_err();
    assert_eq!(err, Error::CommandError("Command not found".to_string(), 1, 1));
    assert_eq!(parser.execute(Vec::new()).unwrap_err(), Error::CommandNotFound);
}

#[test]
fn parser_rejects_bad_amount() {
    let parser = Parser::new(StringMap::new());
    let err = parser.execute(tokenize("incr ab x1")).unwrap_err();
    assert_eq!(
        err,
        Error::CommandError(
            "Second argument for increment command must be a valid unsigned integer".to_string(),
            1,
            1
        )
    );
    assert_eq!(
        parser.execute(tokenize("decr ab +7")).unwrap(),
        CallType::Await(Request::Decrement("ab".to_string(), 7))
    );
}

#[test]
fn parser_keeps_unbound_variable() {
    let parser = Parser::new(StringMap::new());
    assert_eq!(
        parser.fetch_env("$missing"),
        "$missing".to_string()
    );
    assert_eq!(
        parser.execute(tokenize("get $missing")).unwrap(),
        CallType::Await(Request::Get("$missing".to_string()))
    );
}
