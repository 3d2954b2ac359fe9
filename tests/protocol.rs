use ccmemcached::command::{Command, SetCommand};
use ccmemcached::framing::{attach_data, command_line, data_block_len, find_line_end};
use ccmemcached::hash_map_storage::HashMapStorage;
use ccmemcached::protocol::{execute, execute_at, parse_command};
use ccmemcached::storage::Storage;
use ccmemcached::util::listen_port;
use ccmemcached::AppError;

#[test]
fn test_parse_command_with_noreply() {
    let line = "set test 6 0 10 noreply";
    let command = parse_command(line).unwrap();

    if let Command::Store(cmd) = command {
        assert_eq!(cmd.key, "test");
        assert_eq!(cmd.flags, 6);
        assert_eq!(cmd.expire_time, 0);
        assert_eq!(cmd.byte_count, 10);
        assert!(cmd.noreply);
    } else {
        panic!("Expected Command::Set, but got a different variant.");
    }
}

#[test]
fn test_parse_command_without_noreply() {
    let line = "set test 6 0 10";
    let command = parse_command(line).unwrap();

    if let Command::Store(cmd) = command {
        assert_eq!(cmd.key, "test");
        assert_eq!(cmd.flags, 6);
        assert_eq!(cmd.expire_time, 0);
        assert!(!cmd.noreply);
    } else {
        panic!("Expected Command::Set, but got a different variant.");
    }
}

#[test]
fn test_parse_invalid_command() {
    let line = "";
    let result = parse_command(line);
    assert!(matches!(result, Err(AppError::InvalidCommand)));
}

#[test]
fn test_parse_unexpected_command() {
    let line = "abc 1 2 3";
    let result = parse_command(line);
    assert!(matches!(result, Err(AppError::UnexpectedCommand(_))));
}

fn set_with_data(line: &str, data: &[u8]) -> Command {
    let mut command = parse_command(line).unwrap();
    if let Command::Store(cmd) = &mut command {
        let mut block = data.to_vec();
        block.extend_from_slice(b"\r\n");
        attach_data(cmd, block);
    }
    command
}

fn run(storage: &mut HashMapStorage, line: &str, data: &[u8], now: i64) -> Result<String, AppError> {
    execute_at(set_with_data(line, data), storage, now)
}

#[test]
fn set_then_get_returns_value_line() {
    let mut s = HashMapStorage::new();
    assert_eq!(run(&mut s, "set key 5 0 5", b"hello", 100).unwrap(), "STORED\r\n");
    assert_eq!(
        run(&mut s, "get key", b"", 101).unwrap(),
        "VALUE key 5 5\r\nhello\r\nEND\r\n"
    );
}

#[test]
fn get_absent_key_is_end() {
    let mut s = HashMapStorage::new();
    assert_eq!(run(&mut s, "get nothing", b"", 0).unwrap(), "END\r\n");
}

#[test]
fn zero_exptime_never_expires() {
    let mut s = HashMapStorage::new();
    run(&mut s, "set k 1 0 2", b"ab", 10).unwrap();
    assert_eq!(run(&mut s, "get k", b"", i64::MAX).unwrap(), "VALUE k 1 2\r\nab\r\nEND\r\n");
}

#[test]
fn negative_exptime_expires_at_once() {
    let mut s = HashMapStorage::new();
    run(&mut s, "set k 1 -1 2", b"ab", 10).unwrap();
    assert_eq!(run(&mut s, "get k", b"", 10).unwrap(), "END\r\n");
    assert!(!s.contains_live("k", 10));
}

#[test]
fn positive_exptime_is_relative() {
    let mut s = HashMapStorage::new();
    run(&mut s, "set k 0 10 1", b"z", 1000).unwrap();
    assert_eq!(run(&mut s, "get k", b"", 1009).unwrap(), "VALUE k 0 1\r\nz\r\nEND\r\n");
    assert_eq!(run(&mut s, "get k", b"", 1010).unwrap(), "END\r\n");
    assert_eq!(run(&mut s, "get k", b"", 1000).unwrap(), "END\r\n");
}

#[test]
fn second_set_replaces_first() {
    let mut s = HashMapStorage::new();
    run(&mut s, "set k 1 0 5", b"first", 0).unwrap();
    run(&mut s, "set k 2 0 3", b"two", 0).unwrap();
    assert_eq!(run(&mut s, "get k", b"", 0).unwrap(), "VALUE k 2 3\r\ntwo\r\nEND\r\n");
}

#[test]
fn noreply_set_is_silent_but_stored() {
    let mut s = HashMapStorage::new();
    assert_eq!(run(&mut s, "set k 3 0 2 noreply", b"hi", 0).unwrap(), "");
    assert_eq!(run(&mut s, "get k", b"", 0).unwrap(), "VALUE k 3 2\r\nhi\r\nEND\r\n");
}

#[test]
fn sets_on_distinct_keys_are_all_visible() {
    let mut s = HashMapStorage::new();
    for i in 0..50 {
        let line = format!("set key{} {} 0 1", i, i);
        run(&mut s, &line, b"v", 0).unwrap();
    }
    for i in 0..50 {
        let line = format!("get key{}", i);
        let expected = format!("VALUE key{} {} 1\r\nv\r\nEND\r\n", i, i);
        assert_eq!(run(&mut s, &line, b"", 0).unwrap(), expected);
    }
}

#[test]
fn malformed_field_does_not_disturb_next_command() {
    let r = parse_command("set key notanumber 0 3");
    assert!(matches!(r, Err(AppError::ParseIntError)));
    let mut s = HashMapStorage::new();
    assert_eq!(run(&mut s, "set key 0 0 3", b"abc", 0).unwrap(), "STORED\r\n");
    assert_eq!(run(&mut s, "get key", b"", 0).unwrap(), "VALUE key 0 3\r\nabc\r\nEND\r\n");
}

#[test]
fn empty_and_unknown_lines_leave_store_alone() {
    let mut s = HashMapStorage::new();
    run(&mut s, "set k 0 0 1", b"q", 0).unwrap();
    assert!(matches!(parse_command(""), Err(AppError::InvalidCommand)));
    assert!(matches!(parse_command("   \t "), Err(AppError::InvalidCommand)));
    match parse_command("foo bar") {
        Err(AppError::UnexpectedCommand(name)) => assert_eq!(name, "foo"),
        other => panic!("unexpected result {:?}", other),
    }
    assert_eq!(run(&mut s, "get k", b"", 0).unwrap(), "VALUE k 0 1\r\nq\r\nEND\r\n");
}

#[test]
fn missing_fields_are_invalid() {
    assert!(matches!(parse_command("get"), Err(AppError::InvalidCommand)));
    assert!(matches!(parse_command("set k 1 2"), Err(AppError::InvalidCommand)));
    assert!(matches!(parse_command("GET k"), Err(AppError::UnexpectedCommand(_))));
}

#[test]
fn numeric_fields_follow_integer_syntax() {
    assert!(matches!(parse_command("set k 4294967296 0 1"), Err(AppError::ParseIntError)));
    assert!(matches!(parse_command("set k -1 0 1"), Err(AppError::ParseIntError)));
    assert!(matches!(parse_command("set k 1 0 -1"), Err(AppError::ParseIntError)));
    assert!(matches!(parse_command("set k 1 x 1"), Err(AppError::ParseIntError)));
    assert!(matches!(parse_command("set k 1 9223372036854775808 1"), Err(AppError::ParseIntError)));
    match parse_command("set k +4294967295 -9223372036854775808 +7 other") {
        Ok(Command::Store(c)) => {
            assert_eq!(c.flags, u32::MAX);
            assert_eq!(c.expire_time, i64::MIN);
            assert_eq!(c.byte_count, 7);
            assert!(!c.noreply);
        }
        other => panic!("unexpected result {:?}", other),
    }
}

#[test]
fn words_split_on_any_whitespace() {
    match parse_command("  get\t\u{3000}my-key  ") {
        Ok(Command::Get(g)) => assert_eq!(g.key, "my-key"),
        other => panic!("unexpected result {:?}", other),
    }
}

#[test]
fn non_text_value_is_an_encoding_error() {
    let mut s = HashMapStorage::new();
    run(&mut s, "set k 0 0 2", &[0xc3, 0x28], 0).unwrap();
    assert!(matches!(run(&mut s, "get k", b"", 0), Err(AppError::Utf8Error)));
}

#[test]
fn execute_uses_the_clock() {
    let mut s = HashMapStorage::new();
    let reply = execute(set_with_data("set k 9 100 2", b"ok"), &mut s).unwrap();
    assert_eq!(reply, "STORED\r\n");
    let reply = execute(parse_command("get k").unwrap(), &mut s).unwrap();
    assert_eq!(reply, "VALUE k 9 2\r\nok\r\nEND\r\n");
}

#[test]
fn framing_finds_the_first_terminator() {
    assert_eq!(find_line_end(&b"get k\r\nset\r\n".to_vec()), Some(5));
    assert_eq!(find_line_end(&b"get k\r".to_vec()), None);
    assert_eq!(find_line_end(&b"".to_vec()), None);
    assert_eq!(command_line(&b"get k\r\n".to_vec(), 5).unwrap(), "get k");
    assert!(matches!(command_line(&vec![0xff, 0x0d, 0x0a], 1), Err(AppError::Utf8Error)));
}

#[test]
fn data_block_is_count_plus_terminator() {
    let mut cmd = SetCommand {
        key: "k".to_owned(),
        flags: 0,
        expire_time: 0,
        byte_count: 3,
        noreply: false,
        data: Vec::new(),
    };
    assert_eq!(data_block_len(&cmd), Some(5));
    attach_data(&mut cmd, b"abc\r\n".to_vec());
    assert_eq!(cmd.data, b"abc".to_vec());
    cmd.byte_count = usize::MAX;
    assert_eq!(data_block_len(&cmd), None);
}

#[test]
fn port_defaults_to_memcached_port() {
    assert_eq!(listen_port(None), 11211);
    assert_eq!(listen_port(Some(9000)), 9000);
}
