use bytes::Bytes;
use redistill::{
    execute_command, flush_due, health_text, ConnectionState, EvictionPolicy, HealthStats,
    MemoryLimits, RespParser, RespWriter, ServerContext, ShardedStore,
};

const NOW: u64 = 1_700_000_000;

fn context(password: &[u8]) -> ServerContext {
    ServerContext {
        password: password.to_vec(),
        total_commands: 0,
        process_id: 42,
        uptime_seconds: 7,
        connected_clients: 1,
        total_connections: 3,
        rejected_connections: 0,
    }
}

fn run(
    store: &mut ShardedStore,
    state: &mut ConnectionState,
    ctx: &mut ServerContext,
    request: &[u8],
) -> Vec<u8> {
    let mut parser = RespParser::new();
    parser.feed(request);
    let command = parser.try_parse().unwrap().unwrap();
    assert!(!parser.has_buffered_data());
    let mut writer = RespWriter::new();
    execute_command(store, &command, &mut writer, state, NOW, ctx);
    writer.as_bytes().to_vec()
}

#[test]
fn scenario_ping() {
    let mut store = ShardedStore::new(16);
    let mut state = ConnectionState::new();
    let mut ctx = context(b"");
    let reply = run(&mut store, &mut state, &mut ctx, b"*1\r\n$4\r\nPING\r\n");
    assert_eq!(reply, b"+PONG\r\n".to_vec());
}

#[test]
fn scenario_set_get() {
    let mut store = ShardedStore::new(16);
    let mut state = ConnectionState::new();
    let mut ctx = context(b"");
    let reply = run(&mut store, &mut state, &mut ctx, b"*3\r\n$3\r\nSET\r\n$3\r\nfoo\r\n$3\r\nbar\r\n");
    assert_eq!(reply, b"+OK\r\n".to_vec());
    let reply = run(&mut store, &mut state, &mut ctx, b"*2\r\n$3\r\nGET\r\n$3\r\nfoo\r\n");
    assert_eq!(reply, b"$3\r\nbar\r\n".to_vec());
    assert_eq!(ctx.total_commands, 2);
}

#[test]
fn scenario_get_missing() {
    let mut store = ShardedStore::new(16);
    let mut state = ConnectionState::new();
    let mut ctx = context(b"");
    let reply = run(&mut store, &mut state, &mut ctx, b"*2\r\n$3\r\nGET\r\n$4\r\nnone\r\n");
    assert_eq!(reply, b"$-1\r\n".to_vec());
}

#[test]
fn scenario_del_multi() {
    let mut store = ShardedStore::new(16);
    store.set(Bytes::from("a"), Bytes::from("1"), None, NOW);
    store.set(Bytes::from("b"), Bytes::from("2"), None, NOW);
    let mut state = ConnectionState::new();
    let mut ctx = context(b"");
    let reply = run(
        &mut store,
        &mut state,
        &mut ctx,
        b"*4\r\n$3\r\nDEL\r\n$1\r\na\r\n$1\r\nb\r\n$1\r\nc\r\n",
    );
    assert_eq!(reply, b":2\r\n".to_vec());
}

#[test]
fn scenario_auth_required() {
    let mut store = ShardedStore::new(16);
    let mut state = ConnectionState::for_password(b"s3cret");
    assert!(!state.authenticated);
    let mut ctx = context(b"s3cret");
    let reply = run(&mut store, &mut state, &mut ctx, b"*2\r\n$3\r\nGET\r\n$1\r\nx\r\n");
    assert_eq!(reply, b"-ERR NOAUTH Authentication required\r\n".to_vec());
    let reply = run(&mut store, &mut state, &mut ctx, b"*2\r\n$4\r\nAUTH\r\n$6\r\ns3cret\r\n");
    assert_eq!(reply, b"+OK\r\n".to_vec());
    let reply = run(&mut store, &mut state, &mut ctx, b"*2\r\n$3\r\nGET\r\n$1\r\nx\r\n");
    assert_eq!(reply, b"$-1\r\n".to_vec());
}

#[test]
fn scenario_oom_noeviction() {
    let limits = MemoryLimits { max_memory: 100, policy: EvictionPolicy::NoEviction, sample_size: 5 };
    let mut store = ShardedStore::with_limits(16, limits, 0);
    store.memory_used = 95;
    let mut state = ConnectionState::new();
    let mut ctx = context(b"");
    let reply = run(
        &mut store,
        &mut state,
        &mut ctx,
        b"*3\r\n$3\r\nSET\r\n$10\r\nkey_abcdef\r\n$10\r\nvalue_1234\r\n",
    );
    assert_eq!(reply, b"-ERR OOM command not allowed when used memory > 'maxmemory'\r\n".to_vec());
    assert_eq!(store.len(), 0);
    assert_eq!(store.memory_used, 95);
}

#[test]
fn set_under_budget_counts_memory() {
    let limits = MemoryLimits { max_memory: 1000, policy: EvictionPolicy::NoEviction, sample_size: 5 };
    let mut store = ShardedStore::with_limits(16, limits, 0);
    let mut state = ConnectionState::new();
    let mut ctx = context(b"");
    let reply = run(&mut store, &mut state, &mut ctx, b"*3\r\n$3\r\nSET\r\n$1\r\nk\r\n$2\r\nvv\r\n");
    assert_eq!(reply, b"+OK\r\n".to_vec());
    assert_eq!(store.memory_used, 67);
}

#[test]
fn eviction_makes_room_for_a_write() {
    let limits = MemoryLimits { max_memory: 200, policy: EvictionPolicy::AllKeysRandom, sample_size: 5 };
    let mut store = ShardedStore::with_limits(1, limits, 0);
    let mut state = ConnectionState::new();
    let mut ctx = context(b"");
    run(&mut store, &mut state, &mut ctx, b"*3\r\n$3\r\nSET\r\n$1\r\na\r\n$2\r\nxx\r\n");
    run(&mut store, &mut state, &mut ctx, b"*3\r\n$3\r\nSET\r\n$1\r\nb\r\n$2\r\nyy\r\n");
    assert_eq!(store.memory_used, 134);
    let reply = run(&mut store, &mut state, &mut ctx, b"*3\r\n$3\r\nSET\r\n$1\r\nc\r\n$2\r\nzz\r\n");
    assert_eq!(reply, b"+OK\r\n".to_vec());
    assert_eq!(store.evicted_keys, 1);
    assert_eq!(store.len(), 2);
    assert_eq!(store.memory_used, 134);
}

#[test]
fn set_with_expiry_option() {
    let mut store = ShardedStore::new(16);
    let mut state = ConnectionState::new();
    let mut ctx = context(b"");
    let reply = run(
        &mut store,
        &mut state,
        &mut ctx,
        b"*5\r\n$3\r\nset\r\n$1\r\nk\r\n$1\r\nv\r\n$2\r\nex\r\n$2\r\n10\r\n",
    );
    assert_eq!(reply, b"+OK\r\n".to_vec());
    assert!(store.get(b"k", NOW + 9).is_some());
    assert!(store.get(b"k", NOW + 10).is_none());
}

#[test]
fn set_with_zero_expiry_keeps_the_entry() {
    let mut store = ShardedStore::new(16);
    let mut state = ConnectionState::new();
    let mut ctx = context(b"");
    run(
        &mut store,
        &mut state,
        &mut ctx,
        b"*5\r\n$3\r\nSET\r\n$1\r\nk\r\n$1\r\nv\r\n$2\r\nEX\r\n$1\r\n0\r\n",
    );
    assert!(store.get(b"k", NOW + 1_000_000).is_some());
}

#[test]
fn set_expiry_stops_at_first_non_digit() {
    let mut store = ShardedStore::new(16);
    let mut state = ConnectionState::new();
    let mut ctx = context(b"");
    run(
        &mut store,
        &mut state,
        &mut ctx,
        b"*5\r\n$3\r\nSET\r\n$1\r\nk\r\n$1\r\nv\r\n$2\r\nEx\r\n$3\r\n5s9\r\n",
    );
    assert!(store.get(b"k", NOW + 4).is_some());
    assert!(store.get(b"k", NOW + 5).is_none());
}

#[test]
fn errors_for_unknown_and_short_commands() {
    let mut store = ShardedStore::new(16);
    let mut state = ConnectionState::new();
    let mut ctx = context(b"");
    let reply = run(&mut store, &mut state, &mut ctx, b"*1\r\n$5\r\nHELLO\r\n");
    assert_eq!(reply, b"-ERR unknown command\r\n".to_vec());
    let reply = run(&mut store, &mut state, &mut ctx, b"*2\r\n$3\r\nSET\r\n$1\r\nk\r\n");
    assert_eq!(reply, b"-ERR wrong number of arguments\r\n".to_vec());
    let reply = run(&mut store, &mut state, &mut ctx, b"*1\r\n$3\r\nget\r\n");
    assert_eq!(reply, b"-ERR wrong number of arguments\r\n".to_vec());
    let reply = run(&mut store, &mut state, &mut ctx, b"*0\r\n");
    assert_eq!(reply, b"-ERR empty command\r\n".to_vec());
    assert_eq!(ctx.total_commands, 4);
}

#[test]
fn auth_errors() {
    let mut store = ShardedStore::new(16);
    let mut state = ConnectionState::new();
    let mut ctx = context(b"");
    let reply = run(&mut store, &mut state, &mut ctx, b"*2\r\n$4\r\nAUTH\r\n$1\r\nx\r\n");
    assert_eq!(reply, b"-ERR Client sent AUTH, but no password is set\r\n".to_vec());

    let mut state = ConnectionState::for_password(b"pw");
    let mut ctx = context(b"pw");
    let reply = run(&mut store, &mut state, &mut ctx, b"*2\r\n$4\r\nauth\r\n$2\r\nno\r\n");
    assert_eq!(reply, b"-ERR invalid password\r\n".to_vec());
    assert!(!state.authenticated);
    let reply = run(&mut store, &mut state, &mut ctx, b"*1\r\n$4\r\nAUTH\r\n");
    assert_eq!(reply, b"-ERR wrong number of arguments for 'auth' command\r\n".to_vec());
    let reply = run(&mut store, &mut state, &mut ctx, b"*1\r\n$4\r\nping\r\n");
    assert_eq!(reply, b"+PONG\r\n".to_vec());
}

#[test]
fn keys_dbsize_flushdb_and_stubs() {
    let mut store = ShardedStore::new(16);
    let mut state = ConnectionState::new();
    let mut ctx = context(b"");
    let reply = run(&mut store, &mut state, &mut ctx, b"*1\r\n$4\r\nKEYS\r\n");
    assert_eq!(reply, b"*0\r\n".to_vec());
    store.set(Bytes::from("only"), Bytes::from("v"), None, NOW);
    let reply = run(&mut store, &mut state, &mut ctx, b"*1\r\n$4\r\nkeys\r\n");
    assert_eq!(reply, b"*1\r\n$4\r\nonly\r\n".to_vec());
    let reply = run(&mut store, &mut state, &mut ctx, b"*1\r\n$6\r\nDBSIZE\r\n");
    assert_eq!(reply, b":1\r\n".to_vec());
    let reply = run(&mut store, &mut state, &mut ctx, b"*2\r\n$6\r\nEXISTS\r\n$4\r\nonly\r\n");
    assert_eq!(reply, b":1\r\n".to_vec());
    let reply = run(&mut store, &mut state, &mut ctx, b"*2\r\n$6\r\nCONFIG\r\n$3\r\nGET\r\n");
    assert_eq!(reply, b"*0\r\n".to_vec());
    let reply = run(&mut store, &mut state, &mut ctx, b"*1\r\n$7\r\nCOMMAND\r\n");
    assert_eq!(reply, b"*0\r\n".to_vec());
    let reply = run(&mut store, &mut state, &mut ctx, b"*1\r\n$7\r\nFlushDB\r\n");
    assert_eq!(reply, b"+OK\r\n".to_vec());
    assert_eq!(store.len(), 0);
}

#[test]
fn info_reports_the_figures() {
    let mut store = ShardedStore::new(16);
    store.set(Bytes::from("k"), Bytes::from("v"), None, NOW);
    let mut state = ConnectionState::new();
    let mut ctx = context(b"");
    let reply = run(&mut store, &mut state, &mut ctx, b"*1\r\n$4\r\nINFO\r\n");
    let body = "# Server\r\nredis_version:7.0.0\r\nredis_mode:standalone\r\nos:Redistill\r\narch_bits:64\r\nprocess_id:42\r\nuptime_in_seconds:7\r\n\r\n# Clients\r\nconnected_clients:1\r\n\r\n# Memory\r\nused_memory:0\r\nused_memory_human:0B\r\nmaxmemory:0\r\nmaxmemory_human:unlimited\r\nmaxmemory_policy:allkeys-lru\r\nevicted_keys:0\r\n\r\n# Stats\r\ntotal_connections_received:3\r\ntotal_commands_processed:1\r\nrejected_connections:0\r\n\r\n# Keyspace\r\ndb0:keys=1,expires=0,avg_ttl=0\r\n";
    let expected = format!("${}\r\n{}\r\n", body.len(), body);
    assert_eq!(reply, expected.into_bytes());
}

#[test]
fn parser_waits_for_complete_requests() {
    let mut parser = RespParser::new();
    parser.feed(b"*2\r\n$3\r\nGET\r\n$3\r\nfo");
    assert_eq!(parser.try_parse(), Ok(None));
    parser.feed(b"o\r\n*1\r\n$4\r\nPI");
    let first = parser.try_parse().unwrap().unwrap();
    assert_eq!(first, vec![Bytes::from("GET"), Bytes::from("foo")]);
    assert!(parser.has_buffered_data());
    assert_eq!(parser.try_parse(), Ok(None));
    parser.feed(b"NG\r\n");
    let second = parser.try_parse().unwrap().unwrap();
    assert_eq!(second, vec![Bytes::from("PING")]);
    assert!(!parser.has_buffered_data());
}

#[test]
fn parser_rejects_protocol_violations() {
    let mut parser = RespParser::new();
    parser.feed(b"+PING\r\n");
    assert_eq!(parser.try_parse(), Err(()));

    let mut parser = RespParser::new();
    parser.feed(b"*1x\r\n");
    assert_eq!(parser.try_parse(), Err(()));

    let mut parser = RespParser::new();
    parser.feed(b"*1\r\n:4\r\nPING\r\n");
    assert_eq!(parser.try_parse(), Err(()));

    let mut parser = RespParser::new();
    parser.feed(b"*1\r\n$4\r\nPINGXX");
    assert_eq!(parser.try_parse(), Err(()));

    let mut parser = RespParser::new();
    parser.feed(b"*1\r\n$99999999999999999999999\r\n");
    assert_eq!(parser.try_parse(), Err(()));
}

#[test]
fn writer_round_trips_through_parser() {
    let items = vec![Bytes::from("SET"), Bytes::from(""), Bytes::from(vec![0u8, 255, 13, 10])];
    let mut writer = RespWriter::new();
    writer.write_array(&items);
    let mut parser = RespParser::new();
    parser.feed(writer.as_bytes());
    parser.feed(b"*1\r\n");
    let parsed = parser.try_parse().unwrap().unwrap();
    assert_eq!(parsed, items);
    assert!(parser.has_buffered_data());
}

#[test]
fn writer_encodings() {
    let mut writer = RespWriter::new();
    writer.write_integer(0);
    writer.write_integer(1234567890);
    writer.write_null();
    writer.write_error(b"bad");
    writer.write_simple_string(b"OK");
    writer.write_bulk_string(b"");
    assert_eq!(writer.as_bytes(), b":0\r\n:1234567890\r\n$-1\r\n-ERR bad\r\n+OK\r\n$0\r\n\r\n");
    writer.clear();
    assert!(writer.as_bytes().is_empty());
    writer.write_u64(u64::MAX);
    assert_eq!(writer.as_bytes(), b"18446744073709551615");
}

#[test]
fn flush_policy() {
    let mut writer = RespWriter::new();
    let mut parser = RespParser::new();
    parser.feed(b"*1\r\n");
    assert!(!flush_due(&writer, &parser, 1, 16));
    assert!(flush_due(&writer, &parser, 16, 16));
    writer.write_raw(&vec![b'x'; 8192]);
    assert!(writer.should_flush());
    assert!(flush_due(&writer, &parser, 1, 16));
    let writer = RespWriter::new();
    let parser = RespParser::new();
    assert!(flush_due(&writer, &parser, 1, 16));
}

#[test]
fn health_document() {
    let stats = HealthStats {
        uptime_seconds: 5,
        active_connections: 2,
        total_connections: 9,
        rejected_connections: 1,
        memory_used: 640,
        max_memory: 0,
        evicted_keys: 0,
        total_commands: 77,
    };
    let body = String::from_utf8(health_text(&stats)).unwrap();
    assert_eq!(
        body,
        "{\"status\":\"ok\",\"uptime_seconds\":5,\"active_connections\":2,\"total_connections\":9,\"rejected_connections\":1,\"memory_used\":640,\"max_memory\":0,\"evicted_keys\":0,\"total_commands\":77}"
    );
}

#[test]
fn exact_arities() {
    let mut store = ShardedStore::new(16);
    let mut state = ConnectionState::new();
    let mut ctx = context(b"");
    let wrong = b"-ERR wrong number of arguments\r\n".to_vec();
    let reply = run(&mut store, &mut state, &mut ctx, b"*2\r\n$4\r\nKEYS\r\n$1\r\n*\r\n");
    assert_eq!(reply, wrong);
    let reply = run(&mut store, &mut state, &mut ctx, b"*3\r\n$3\r\nGET\r\n$1\r\na\r\n$1\r\nb\r\n");
    assert_eq!(reply, wrong);
    let reply = run(
        &mut store,
        &mut state,
        &mut ctx,
        b"*4\r\n$3\r\nSET\r\n$1\r\nk\r\n$1\r\nv\r\n$2\r\nEX\r\n",
    );
    assert_eq!(reply, wrong);
    assert_eq!(store.len(), 0);
    let reply = run(&mut store, &mut state, &mut ctx, b"*2\r\n$4\r\nPING\r\n$1\r\nx\r\n");
    assert_eq!(reply, wrong);
    let reply = run(&mut store, &mut state, &mut ctx, b"*2\r\n$6\r\nDBSIZE\r\n$1\r\nx\r\n");
    assert_eq!(reply, wrong);

    let mut state = ConnectionState::for_password(b"pw");
    let mut ctx = context(b"pw");
    let reply = run(
        &mut store,
        &mut state,
        &mut ctx,
        b"*3\r\n$4\r\nAUTH\r\n$2\r\npw\r\n$2\r\npw\r\n",
    );
    assert_eq!(reply, b"-ERR wrong number of arguments for 'auth' command\r\n".to_vec());
    assert!(!state.authenticated);
}
