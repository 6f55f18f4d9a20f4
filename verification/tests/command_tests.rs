use my_redis::client::cli::Command as ClientCommand;
use my_redis::server::command::Command;
use my_redis::server::store::Store;
use my_redis::server::store::Value;
use my_redis::text::parse_i64;
use my_redis::text::parse_u128;
use my_redis::text::render_bool;
use my_redis::text::render_i64;
use my_redis::text::render_u128;
use my_redis::text::tokenize;

const NOW: u128 = 1_700_000_000_000;

fn run(line: &str, store: &mut Store, now: u128) -> String {
    match Command::parse(line) {
        Ok(cmd) => cmd.execute(store, now),
        Err(msg) => format!("ERROR: {}", msg),
    }
}

#[test]
fn ping_pongs() {
    let mut store = Store::new();
    assert_eq!(run("PING", &mut store, NOW), "PONG");
}

#[test]
fn del_missing_is_nil() {
    let mut store = Store::new();
    assert_eq!(run("DEL missing", &mut store, NOW), "nil");
}

#[test]
fn get_missing_is_nil() {
    let mut store = Store::new();
    assert_eq!(run("GET missing", &mut store, NOW), "nil");
}

#[test]
fn set_with_ex_then_ttl_and_expiry() {
    let mut store = Store::new();
    assert_eq!(run("SET a 5 EX 10", &mut store, NOW), "OK");
    // the absolute deadline is now + 10 seconds
    assert_eq!(run("TTL a", &mut store, NOW), format!("{}", NOW + 10_000));
    assert_eq!(run("GET a", &mut store, NOW), "5");
    // after the deadline has elapsed the key is gone
    assert_eq!(run("GET a", &mut store, NOW + 10_000), "nil");
    assert_eq!(run("TTL a", &mut store, NOW + 10_000), "nil");
}

#[test]
fn set_get_del_cycle() {
    let mut store = Store::new();
    assert_eq!(run("SET k hello", &mut store, NOW), "OK");
    assert_eq!(run("GET k", &mut store, NOW), "hello");
    assert_eq!(run("DEL k", &mut store, NOW), "OK");
    assert_eq!(run("GET k", &mut store, NOW), "nil");
    assert_eq!(run("DEL k", &mut store, NOW), "nil");
}

#[test]
fn byteset_stores_token_bytes() {
    let mut store = Store::new();
    assert_eq!(run("BYTESET k abc", &mut store, NOW), "OK");
    assert_eq!(run("GET k", &mut store, NOW), "abc");
    match Command::parse("BYTESET k abc") {
        Ok(Command::ByteSet { value, .. }) => {
            assert_eq!(value, Value::Bytes(b"abc".to_vec()));
        }
        other => panic!("unexpected parse: {:?}", other.map(|_| ())),
    }
}

#[test]
fn iset_parses_and_renders_integers() {
    let mut store = Store::new();
    assert_eq!(run("ISET k -42", &mut store, NOW), "OK");
    assert_eq!(run("GET k", &mut store, NOW), "-42");
    assert_eq!(run("ISET k2 9001", &mut store, NOW), "OK");
    assert_eq!(run("GET k2", &mut store, NOW), "9001");
}

#[test]
fn bset_parses_and_renders_booleans() {
    let mut store = Store::new();
    assert_eq!(run("BSET k true", &mut store, NOW), "OK");
    assert_eq!(run("GET k", &mut store, NOW), "true");
    assert_eq!(run("BSET k2 false EX 5", &mut store, NOW), "OK");
    assert_eq!(run("GET k2", &mut store, NOW), "false");
    assert_eq!(run("TTL k2", &mut store, NOW), format!("{}", NOW + 5_000));
}

#[test]
fn expire_gives_a_key_a_deadline() {
    let mut store = Store::new();
    assert_eq!(run("SET a v", &mut store, NOW), "OK");
    assert_eq!(run("EXPIRE a 10", &mut store, NOW), "OK");
    assert_eq!(run("TTL a", &mut store, NOW), format!("{}", NOW + 10_000));
    assert_eq!(run("GET a", &mut store, NOW + 10_000), "nil");
}

#[test]
fn expire_missing_is_nil() {
    let mut store = Store::new();
    assert_eq!(run("EXPIRE missing 10", &mut store, NOW), "nil");
}

#[test]
fn parse_rejects_malformed_lines() {
    assert!(Command::parse("").is_err());
    assert!(Command::parse("FOO").is_err());
    assert!(Command::parse("SET onlykey").is_err());
    assert!(Command::parse("SET k v EX").is_err());
    assert!(Command::parse("SET k v EX notanumber").is_err());
    assert!(Command::parse("ISET k 1.5").is_err());
    assert!(Command::parse("BSET k maybe").is_err());
    assert!(Command::parse("EXPIRE k -1").is_err());
    assert!(Command::parse("GET").is_err());
    assert!(Command::parse("PING extra").is_err());
}

#[test]
fn parse_error_messages_are_descriptive() {
    match Command::parse("FOO bar") {
        Err(msg) => assert_eq!(msg, "invalid command: FOO bar"),
        Ok(_) => panic!("parse accepted an unknown verb"),
    }
    match Command::parse("ISET k abc") {
        Err(msg) => assert_eq!(msg, "invalid integer value: abc"),
        Ok(_) => panic!("parse accepted a bad integer"),
    }
    match Command::parse("BSET k maybe") {
        Err(msg) => assert_eq!(msg, "invalid boolean value: maybe"),
        Ok(_) => panic!("parse accepted a bad boolean"),
    }
    match Command::parse("SET k v EX soon") {
        Err(msg) => assert_eq!(msg, "invalid expiration time: soon"),
        Ok(_) => panic!("parse accepted a bad expiration"),
    }
    match Command::parse("EXPIRE k soon") {
        Err(msg) => assert_eq!(msg, "invalid seconds: soon"),
        Ok(_) => panic!("parse accepted bad seconds"),
    }
}

#[test]
fn parse_tolerates_extra_whitespace() {
    let mut store = Store::new();
    assert_eq!(run("  SET   k   v  \r\n", &mut store, NOW), "OK");
    assert_eq!(run("GET k\r\n", &mut store, NOW), "v");
}

#[test]
fn tokenize_splits_on_whitespace() {
    assert_eq!(tokenize(" SET  a  b "), vec!["SET", "a", "b"]);
    assert_eq!(tokenize(""), Vec::<String>::new());
    assert_eq!(tokenize("  \t \r\n"), Vec::<String>::new());
    assert_eq!(tokenize("one"), vec!["one"]);
}

#[test]
fn numeric_parsing_edges() {
    assert_eq!(parse_u128("0"), Some(0));
    assert_eq!(parse_u128("123"), Some(123));
    assert_eq!(parse_u128(""), None);
    assert_eq!(parse_u128("12a"), None);
    assert_eq!(parse_u128("-1"), None);
    assert_eq!(
        parse_u128("340282366920938463463374607431768211455"),
        Some(u128::MAX)
    );
    assert_eq!(parse_u128("340282366920938463463374607431768211456"), None);
    assert_eq!(parse_i64("-9223372036854775808"), Some(i64::MIN));
    assert_eq!(parse_i64("9223372036854775807"), Some(i64::MAX));
    assert_eq!(parse_i64("9223372036854775808"), None);
    assert_eq!(parse_i64("-9223372036854775809"), None);
    assert_eq!(parse_i64("-"), None);
    assert_eq!(parse_i64("7"), Some(7));
}

#[test]
fn numeric_rendering_edges() {
    assert_eq!(render_u128(0), "0");
    assert_eq!(render_u128(10), "10");
    assert_eq!(
        render_u128(u128::MAX),
        "340282366920938463463374607431768211455"
    );
    assert_eq!(render_i64(0), "0");
    assert_eq!(render_i64(-1), "-1");
    assert_eq!(render_i64(i64::MIN), "-9223372036854775808");
    assert_eq!(render_i64(i64::MAX), "9223372036854775807");
    assert_eq!(render_bool(true), "true");
    assert_eq!(render_bool(false), "false");
}

#[test]
fn client_commands_render_protocol_lines() {
    assert_eq!(ClientCommand::Ping.to_line(), "PING");
    assert_eq!(
        ClientCommand::TextSet {
            key: "k".to_string(),
            value: "v".to_string()
        }
        .to_line(),
        "SET k v"
    );
    assert_eq!(
        ClientCommand::Get {
            key: "k".to_string()
        }
        .to_line(),
        "GET k"
    );
}

#[test]
fn rendered_client_lines_parse_back() {
    let mut store = Store::new();
    let set_line = ClientCommand::TextSet {
        key: "k".to_string(),
        value: "v".to_string(),
    }
    .to_line();
    assert_eq!(run(&set_line, &mut store, NOW), "OK");
    let get_line = ClientCommand::Get {
        key: "k".to_string(),
    }
    .to_line();
    assert_eq!(run(&get_line, &mut store, NOW), "v");
}
