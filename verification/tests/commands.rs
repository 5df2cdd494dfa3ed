use simple_redis::{
    request_handler, connection_step, Backend, BulkString, Command, CommandError, Incoming, RespArray,
    RespEncode, RespError, RespFrame, RespMap, RespNull, SimpleError, SimpleString, Step,
    WrongType,
};

fn request(words: &[&str]) -> RespFrame {
    RespArray::new(words.iter().map(|w| BulkString::new(*w).into()).collect()).into()
}

fn bulk(text: &str) -> RespFrame {
    BulkString::new(text).into()
}

fn ok() -> RespFrame {
    SimpleString::new("OK").into()
}

fn wrong_type() -> RespFrame {
    SimpleError::new("WRONGTYPE Operation against a key holding the wrong kind of value").into()
}

#[test]
fn commands_are_read_from_arrays_of_bulk_strings() {
    assert_eq!(
        Command::try_from(request(&["get", "hello"])),
        Ok(Command::Get { key: b"hello".to_vec() })
    );
    assert_eq!(
        Command::try_from(request(&["set", "hello", "world"])),
        Ok(Command::SetKey { key: b"hello".to_vec(), value: bulk("world") })
    );
    assert_eq!(
        Command::try_from(request(&["hget", "map", "hello"])),
        Ok(Command::HGet { key: b"map".to_vec(), field: b"hello".to_vec() })
    );
    assert_eq!(
        Command::try_from(request(&["hset", "map", "hello", "world"])),
        Ok(Command::HSet {
            key: b"map".to_vec(),
            field: b"hello".to_vec(),
            value: bulk("world")
        })
    );
    assert_eq!(
        Command::try_from(request(&["hgetall", "map"])),
        Ok(Command::HGetAll { key: b"map".to_vec() })
    );
}

#[test]
fn command_names_may_be_in_any_case() {
    for name in ["GET", "Get", "gEt", "get"] {
        assert_eq!(
            Command::try_from(request(&[name, "k"])),
            Ok(Command::Get { key: b"k".to_vec() })
        );
    }
    assert_eq!(
        Command::try_from(request(&["HGETALL", "k"])),
        Ok(Command::HGetAll { key: b"k".to_vec() })
    );
}

#[test]
fn a_command_must_be_a_non_empty_array_of_bulk_strings() {
    assert_eq!(Command::try_from(RespFrame::Integer(1)), Err(CommandError::InvalidShape));
    assert_eq!(
        Command::try_from(SimpleString::new("get").into()),
        Err(CommandError::InvalidShape)
    );
    assert_eq!(
        Command::try_from(RespArray::new(vec![]).into()),
        Err(CommandError::InvalidShape)
    );
    assert_eq!(
        Command::try_from(RespArray::new(vec![bulk("get"), RespFrame::Integer(1)]).into()),
        Err(CommandError::InvalidShape)
    );
    assert_eq!(
        Command::try_from(
            RespArray::new(vec![SimpleString::new("get").into(), bulk("k")]).into()
        ),
        Err(CommandError::InvalidShape)
    );
}

#[test]
fn unknown_names_and_wrong_argument_counts_are_errors() {
    assert_eq!(Command::try_from(request(&["ping"])), Err(CommandError::UnknownCommand));
    assert_eq!(Command::try_from(request(&["gett", "k"])), Err(CommandError::UnknownCommand));
    assert_eq!(Command::try_from(request(&["ge", "k"])), Err(CommandError::UnknownCommand));
    assert_eq!(Command::try_from(request(&["", "k"])), Err(CommandError::UnknownCommand));
    assert_eq!(Command::try_from(request(&["g\u{e9}t", "k"])), Err(CommandError::UnknownCommand));
    assert_eq!(Command::try_from(request(&["get"])), Err(CommandError::WrongArity));
    assert_eq!(Command::try_from(request(&["get", "a", "b"])), Err(CommandError::WrongArity));
    assert_eq!(Command::try_from(request(&["set", "a"])), Err(CommandError::WrongArity));
    assert_eq!(Command::try_from(request(&["hget", "a"])), Err(CommandError::WrongArity));
    assert_eq!(Command::try_from(request(&["hset", "a", "b"])), Err(CommandError::WrongArity));
    assert_eq!(Command::try_from(request(&["hgetall"])), Err(CommandError::WrongArity));
}

#[test]
fn set_then_get_gives_the_value_back() {
    let mut backend = Backend::new();
    assert_eq!(request_handler(request(&["get", "hello"]), &mut backend), RespNull.into());
    assert_eq!(request_handler(request(&["set", "hello", "world"]), &mut backend), ok());
    assert_eq!(request_handler(request(&["get", "hello"]), &mut backend), bulk("world"));
    assert_eq!(request_handler(request(&["SET", "hello", "again"]), &mut backend), ok());
    assert_eq!(request_handler(request(&["GET", "hello"]), &mut backend), bulk("again"));
    assert_eq!(request_handler(request(&["get", "other"]), &mut backend), RespNull.into());
    assert_eq!(backend.len(), 1);
}

#[test]
fn hash_commands_work_on_fields() {
    let mut backend = Backend::new();
    assert_eq!(
        request_handler(request(&["hgetall", "map"]), &mut backend),
        RespFrame::Mapping(RespMap::new())
    );
    assert_eq!(request_handler(request(&["hget", "map", "hello"]), &mut backend), RespNull.into());
    assert_eq!(request_handler(request(&["hset", "map", "hello", "world"]), &mut backend), ok());
    assert_eq!(request_handler(request(&["hset", "map", "foo", "bar"]), &mut backend), ok());
    assert_eq!(request_handler(request(&["hget", "map", "hello"]), &mut backend), bulk("world"));
    assert_eq!(request_handler(request(&["hget", "map", "none"]), &mut backend), RespNull.into());
    let reply = request_handler(request(&["hgetall", "map"]), &mut backend);
    assert_eq!(
        reply.encode(),
        b"%2\r\n+foo\r\n$3\r\nbar\r\n+hello\r\n$5\r\nworld\r\n"
    );
}

#[test]
fn a_key_of_the_other_kind_is_a_domain_error() {
    let mut backend = Backend::new();
    request_handler(request(&["set", "s", "v"]), &mut backend);
    request_handler(request(&["hset", "h", "f", "v"]), &mut backend);
    assert_eq!(request_handler(request(&["hget", "s", "f"]), &mut backend), wrong_type());
    assert_eq!(request_handler(request(&["hset", "s", "f", "v"]), &mut backend), wrong_type());
    assert_eq!(request_handler(request(&["hgetall", "s"]), &mut backend), wrong_type());
    assert_eq!(request_handler(request(&["get", "h"]), &mut backend), wrong_type());
    assert_eq!(request_handler(request(&["get", "s"]), &mut backend), bulk("v"));
    assert_eq!(request_handler(request(&["hget", "h", "f"]), &mut backend), bulk("v"));
    assert_eq!(request_handler(request(&["set", "h", "now a string"]), &mut backend), ok());
    assert_eq!(request_handler(request(&["get", "h"]), &mut backend), bulk("now a string"));
}

#[test]
fn a_malformed_command_is_answered_and_changes_nothing() {
    let mut backend = Backend::new();
    request_handler(request(&["set", "k", "v"]), &mut backend);
    assert_eq!(
        request_handler(request(&["set", "k"]), &mut backend),
        SimpleError::new("ERR wrong number of arguments").into()
    );
    assert_eq!(
        request_handler(request(&["del", "k"]), &mut backend),
        SimpleError::new("ERR unknown command").into()
    );
    assert_eq!(
        request_handler(RespFrame::Integer(7), &mut backend),
        SimpleError::new("ERR command must be an array of bulk strings").into()
    );
    assert_eq!(request_handler(request(&["get", "k"]), &mut backend), bulk("v"));
    assert_eq!(backend.len(), 1);
}

#[test]
fn command_errors_become_error_frames() {
    assert_eq!(
        CommandError::InvalidShape.to_frame().encode(),
        b"-ERR command must be an array of bulk strings\r\n"
    );
    assert_eq!(CommandError::UnknownCommand.to_frame().encode(), b"-ERR unknown command\r\n");
    assert_eq!(
        CommandError::WrongArity.to_frame().encode(),
        b"-ERR wrong number of arguments\r\n"
    );
}

#[test]
fn execute_answers_from_the_store() {
    let mut backend = Backend::new();
    let set = Command::SetKey { key: b"k".to_vec(), value: RespFrame::Integer(5) };
    assert_eq!(set.execute(&mut backend), ok());
    let get = Command::Get { key: b"k".to_vec() };
    assert_eq!(get.execute(&mut backend), RespFrame::Integer(5));
}

#[test]
fn store_operations_keep_kinds_apart() {
    let mut backend = Backend::new();
    assert_eq!(backend.get(b"k"), Ok(None));
    backend.set(b"k".to_vec(), RespFrame::Integer(1));
    assert_eq!(backend.get(b"k"), Ok(Some(RespFrame::Integer(1))));
    assert_eq!(backend.hget(b"k", b"f"), Err(WrongType));
    assert_eq!(backend.hgetall(b"k"), Err(WrongType));
    assert_eq!(backend.hset(b"k".to_vec(), b"f".to_vec(), RespFrame::Integer(2)), Err(WrongType));
    assert_eq!(backend.get(b"k"), Ok(Some(RespFrame::Integer(1))));

    assert_eq!(backend.hgetall(b"h"), Ok(None));
    assert_eq!(backend.hset(b"h".to_vec(), b"f".to_vec(), RespFrame::Integer(2)), Ok(()));
    assert_eq!(backend.hset(b"h".to_vec(), b"e".to_vec(), RespFrame::Integer(3)), Ok(()));
    assert_eq!(backend.hset(b"h".to_vec(), b"f".to_vec(), RespFrame::Integer(4)), Ok(()));
    assert_eq!(backend.hget(b"h", b"f"), Ok(Some(RespFrame::Integer(4))));
    assert_eq!(backend.hget(b"h", b"x"), Ok(None));
    assert_eq!(backend.hget(b"missing", b"f"), Ok(None));
    assert_eq!(backend.get(b"h"), Err(WrongType));
    let mut expected = RespMap::new();
    expected.insert("e", RespFrame::Integer(3));
    expected.insert("f", RespFrame::Integer(4));
    assert_eq!(backend.hgetall(b"h"), Ok(Some(expected)));
    assert_eq!(backend.len(), 2);
}

#[test]
fn writes_to_distinct_keys_are_all_kept() {
    let mut backend = Backend::new();
    let count: i64 = 200;
    for i in 0..count {
        let key = format!("key-{}", (i * 7919) % count);
        backend.set(key.into_bytes(), RespFrame::Integer(i));
    }
    assert_eq!(backend.len(), 200);
    for i in 0..count {
        let key = format!("key-{}", (i * 7919) % count);
        assert_eq!(backend.get(key.as_bytes()), Ok(Some(RespFrame::Integer(i))));
    }
}

#[test]
fn writes_to_one_key_leave_the_last_value() {
    let mut backend = Backend::new();
    for i in 0..50i64 {
        backend.set(b"shared".to_vec(), RespFrame::Integer(i));
    }
    assert_eq!(backend.len(), 1);
    assert_eq!(backend.get(b"shared"), Ok(Some(RespFrame::Integer(49))));
}

#[test]
fn a_request_is_answered_and_the_connection_goes_on() {
    let mut backend = Backend::new();
    assert_eq!(
        connection_step(Incoming::Request(request(&["set", "a", "1"])), &mut backend),
        Step::Reply(ok())
    );
    assert_eq!(
        connection_step(Incoming::Request(request(&["get", "a"])), &mut backend),
        Step::Reply(bulk("1"))
    );
    assert_eq!(
        connection_step(Incoming::Request(request(&["nope"])), &mut backend),
        Step::Reply(SimpleError::new("ERR unknown command").into())
    );
}

#[test]
fn a_broken_stream_closes_the_connection() {
    let mut backend = Backend::new();
    assert_eq!(
        connection_step(Incoming::Broken(RespError::InvalidFrame), &mut backend),
        Step::Abort(RespError::InvalidFrame)
    );
    assert_eq!(
        connection_step(Incoming::Broken(RespError::NotComplete), &mut backend),
        Step::Abort(RespError::NotComplete)
    );
    assert_eq!(connection_step(Incoming::End, &mut backend), Step::Close);
    assert_eq!(backend.len(), 0);
}
