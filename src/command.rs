//! The command executor: from a parsed request, the connection's state and
//! the current second to the reply bytes and the changes to the keyspace.
use bytes::Bytes;
use std::ops::Deref;
use vstd::prelude::*;

use crate::config::EvictionPolicy;
use crate::eviction::{
    entry_cost, entry_size, evict_if_needed, evicted_all, fits, same_setup, unchanged,
};
use crate::resp::{
    array_reply, ascii, bulk_reply, digits_end, digits_value, error_reply, integer_reply, is_digit,
    lemma_digits_nonneg, literal, null_reply, simple_reply, RespWriter,
};
use crate::store::{
    after_get, get_result, keys_view, live_count, live_keys, set_model, ShardedStore, StoreModel,
    ENTRY_OVERHEAD,
};
use crate::text::{info_body, info_text, InfoStats};

verus! {

/// `c | 0x20`: lower case for ASCII letters.
pub open spec fn fold(c: u8) -> u8 {
    c | 0x20u8
}

/// `a` matches the lower-case `name`: the same length, and each byte folds
/// to the name's byte.
pub open spec fn ci_eq(a: Seq<u8>, name: Seq<u8>) -> bool {
    a.len() == name.len() && forall|i: int| 0 <= i < a.len() ==> fold(#[trigger] a[i]) == name[i]
}

/// Compares `a` with a lower-case name, ignoring ASCII case.
pub fn eq_ignore_case(a: &[u8], name: &[u8]) -> (r: bool)
    ensures
        r == ci_eq(a@, name@),
{
    if a.len() != name.len() {
        return false;
    }
    let mut i: usize = 0;
    while i < a.len()
        invariant
            a@.len() == name@.len(),
            i <= a@.len(),
            forall|j: int| 0 <= j < i ==> fold(#[trigger] a@[j]) == name@[j],
        decreases a@.len() - i,
    {
        if (a[i] | 0x20) != name[i] {
            return false;
        }
        i += 1;
    }
    true
}

/// Compares `a` with a three-letter lower-case name, ignoring ASCII case.
pub fn eq_ignore_case_3(a: &[u8], b: &[u8; 3]) -> (r: bool)
    ensures
        r == ci_eq(a@, b@),
{
    a.len() == 3 && (a[0] | 0x20) == b[0] && (a[1] | 0x20) == b[1] && (a[2] | 0x20) == b[2]
}

/// Compares `a` with a six-letter lower-case name, ignoring ASCII case.
pub fn eq_ignore_case_6(a: &[u8], b: &[u8; 6]) -> (r: bool)
    ensures
        r == ci_eq(a@, b@),
{
    a.len() == 6 && (a[0] | 0x20) == b[0] && (a[1] | 0x20) == b[1] && (a[2] | 0x20) == b[2] && (a[3]
        | 0x20) == b[3] && (a[4] | 0x20) == b[4] && (a[5] | 0x20) == b[5]
}

/// Compares two byte strings.
pub fn bytes_eq(a: &[u8], b: &[u8]) -> (r: bool)
    ensures
        r == (a@ == b@),
{
    if a.len() != b.len() {
        return false;
    }
    let mut i: usize = 0;
    while i < a.len()
        invariant
            a@.len() == b@.len(),
            i <= a@.len(),
            forall|j: int| 0 <= j < i ==> a@[j] == b@[j],
        decreases a@.len() - i,
    {
        if a[i] != b[i] {
            return false;
        }
        i += 1;
    }
    assert(a@ =~= b@);
    true
}

/// Per-connection state.
pub struct ConnectionState {
    pub authenticated: bool,
}

impl ConnectionState {
    /// The state of a connection under the default configuration, which sets
    /// no password, so the connection needs no authentication. Servers with a
    /// password start their connections with `for_password`.
    pub fn new() -> (r: Self)
        ensures
            r.authenticated,
    {
        ConnectionState { authenticated: true }
    }

    /// A connection to a server with this password: it starts authenticated
    /// exactly when the password is empty.
    pub fn for_password(password: &[u8]) -> (r: Self)
        ensures
            r.authenticated == (password@.len() == 0),
    {
        ConnectionState { authenticated: password.len() == 0 }
    }
}

/// What the executor reads of the server beyond the keyspace, and the
/// command counter that it advances.
pub struct ServerContext {
    /// The configured password; empty when none is set.
    pub password: Vec<u8>,
    pub total_commands: u64,
    pub process_id: u32,
    pub uptime_seconds: u64,
    pub connected_clients: u64,
    pub total_connections: u64,
    pub rejected_connections: u64,
}

/// The commands, told apart by their first argument and argument count:
/// PING, KEYS, DBSIZE, FLUSHDB and INFO take no argument, GET one, SET two or
/// four (`EX seconds`), DEL and EXISTS at least one, AUTH is told apart by
/// name alone, and CONFIG and COMMAND take any.
#[derive(Debug, Clone, Copy, PartialEq, Eq, Structural)]
pub enum CommandKind {
    Empty,
    Ping,
    Auth,
    SetEntry,
    Get,
    Del,
    Exists,
    Keys,
    DbSize,
    FlushDb,
    Info,
    Stub,
    WrongArity,
    Unknown,
}

/// Which command a request is.
pub open spec fn command_kind(argv: Seq<Seq<u8>>) -> CommandKind {
    if argv.len() == 0 {
        CommandKind::Empty
    } else {
        let c = argv[0];
        let n = argv.len();
        if ci_eq(c, ascii("set"@)) {
            if n == 3 || n == 5 {
                CommandKind::SetEntry
            } else {
                CommandKind::WrongArity
            }
        } else if ci_eq(c, ascii("get"@)) {
            if n == 2 {
                CommandKind::Get
            } else {
                CommandKind::WrongArity
            }
        } else if ci_eq(c, ascii("del"@)) {
            if n >= 2 {
                CommandKind::Del
            } else {
                CommandKind::WrongArity
            }
        } else if ci_eq(c, ascii("ping"@)) {
            if n == 1 {
                CommandKind::Ping
            } else {
                CommandKind::WrongArity
            }
        } else if ci_eq(c, ascii("keys"@)) {
            if n == 1 {
                CommandKind::Keys
            } else {
                CommandKind::WrongArity
            }
        } else if ci_eq(c, ascii("auth"@)) {
            CommandKind::Auth
        } else if ci_eq(c, ascii("info"@)) {
            if n == 1 {
                CommandKind::Info
            } else {
                CommandKind::WrongArity
            }
        } else if ci_eq(c, ascii("exists"@)) {
            if n >= 2 {
                CommandKind::Exists
            } else {
                CommandKind::WrongArity
            }
        } else if ci_eq(c, ascii("dbsize"@)) {
            if n == 1 {
                CommandKind::DbSize
            } else {
                CommandKind::WrongArity
            }
        } else if ci_eq(c, ascii("config"@)) {
            CommandKind::Stub
        } else if ci_eq(c, ascii("flushdb"@)) {
            if n == 1 {
                CommandKind::FlushDb
            } else {
                CommandKind::WrongArity
            }
        } else if ci_eq(c, ascii("command"@)) {
            CommandKind::Stub
        } else {
            CommandKind::Unknown
        }
    }
}

/// Tells which command a request is.
pub fn classify(command: &[Bytes]) -> (r: CommandKind)
    ensures
        r == command_kind(keys_view(command@)),
{
    if command.len() == 0 {
        return CommandKind::Empty;
    }
    proof {
        reveal_strlit("set");
        reveal_strlit("get");
        reveal_strlit("del");
        reveal_strlit("ping");
        reveal_strlit("keys");
        reveal_strlit("auth");
        reveal_strlit("info");
        reveal_strlit("exists");
        reveal_strlit("dbsize");
        reveal_strlit("config");
        reveal_strlit("flushdb");
        reveal_strlit("command");
    }
    let c: &[u8] = command[0].deref();
    let n = command.len();
    if eq_ignore_case(c, literal("set")) {
        if n == 3 || n == 5 {
            CommandKind::SetEntry
        } else {
            CommandKind::WrongArity
        }
    } else if eq_ignore_case(c, literal("get")) {
        if n == 2 {
            CommandKind::Get
        } else {
            CommandKind::WrongArity
        }
    } else if eq_ignore_case(c, literal("del")) {
        if n >= 2 {
            CommandKind::Del
        } else {
            CommandKind::WrongArity
        }
    } else if eq_ignore_case(c, literal("ping")) {
        if n == 1 {
            CommandKind::Ping
        } else {
            CommandKind::WrongArity
        }
    } else if eq_ignore_case(c, literal("keys")) {
        if n == 1 {
            CommandKind::Keys
        } else {
            CommandKind::WrongArity
        }
    } else if eq_ignore_case(c, literal("auth")) {
        CommandKind::Auth
    } else if eq_ignore_case(c, literal("info")) {
        if n == 1 {
            CommandKind::Info
        } else {
            CommandKind::WrongArity
        }
    } else if eq_ignore_case(c, literal("exists")) {
        if n >= 2 {
            CommandKind::Exists
        } else {
            CommandKind::WrongArity
        }
    } else if eq_ignore_case(c, literal("dbsize")) {
        if n == 1 {
            CommandKind::DbSize
        } else {
            CommandKind::WrongArity
        }
    } else if eq_ignore_case(c, literal("config")) {
        CommandKind::Stub
    } else if eq_ignore_case(c, literal("flushdb")) {
        if n == 1 {
            CommandKind::FlushDb
        } else {
            CommandKind::WrongArity
        }
    } else if eq_ignore_case(c, literal("command")) {
        CommandKind::Stub
    } else {
        CommandKind::Unknown
    }
}

/// Every command but PING and AUTH needs an authenticated connection.
pub open spec fn needs_auth(k: CommandKind) -> bool {
    k != CommandKind::Ping && k != CommandKind::Auth
}

/// The time to live that SET's argument spells: the number that its leading
/// digits make, stopping at the first other byte, capped at the largest `u64`.
pub open spec fn ttl_value(s: Seq<u8>) -> nat {
    let v = digits_value(s, 0, digits_end(s, 0));
    if v > u64::MAX {
        u64::MAX as nat
    } else {
        v as nat
    }
}

/// The time to live of `SET key value EX seconds`; `EX` in any case, and a
/// value of 0 means none.
pub open spec fn ttl_of(argv: Seq<Seq<u8>>) -> Option<u64> {
    if argv.len() >= 5 && ci_eq(argv[3], seq![101u8, 120u8]) && ttl_value(argv[4]) > 0 {
        Some(ttl_value(argv[4]) as u64)
    } else {
        None
    }
}

/// Reads the leading digits of a time to live.
pub fn parse_ttl(s: &[u8]) -> (r: u64)
    ensures
        r == ttl_value(s@),
{
    let mut v: u64 = 0;
    let mut i: usize = 0;
    loop
        invariant
            i <= s@.len(),
            forall|j: int| 0 <= j < i ==> is_digit(#[trigger] s@[j]),
            digits_end(s@, 0) == digits_end(s@, i as int),
            v == (if digits_value(s@, 0, i as int) > u64::MAX {
                u64::MAX as int
            } else {
                digits_value(s@, 0, i as int)
            }),
        ensures
            i == digits_end(s@, 0),
            v == (if digits_value(s@, 0, i as int) > u64::MAX {
                u64::MAX as int
            } else {
                digits_value(s@, 0, i as int)
            }),
        decreases s@.len() - i,
    {
        if i >= s.len() {
            break;
        }
        let b = s[i];
        if b < 48 || b > 57 {
            break;
        }
        let d = (b - 48) as u64;
        proof {
            lemma_digits_nonneg(s@, 0, i as int);
        }
        if v > (u64::MAX - d) / 10 {
            assert(v * 10 + d > u64::MAX) by (nonlinear_arith)
                requires
                    v > (u64::MAX - d) / 10,
                    d <= 9,
            ;
            v = u64::MAX;
        } else {
            assert(v * 10 + d <= u64::MAX) by (nonlinear_arith)
                requires
                    v <= (u64::MAX - d) / 10,
                    d <= 9,
            ;
            v = v * 10 + d;
        }
        i += 1;
    }
    v
}

/// The time to live that a SET request asks for.
pub fn ttl_from(command: &[Bytes]) -> (r: Option<u64>)
    ensures
        r == ttl_of(keys_view(command@)),
{
    if command.len() >= 5 {
        let ex: &[u8] = command[3].deref();
        if ex.len() == 2 && (ex[0] | 0x20) == 101 && (ex[1] | 0x20) == 120 {
            let val = parse_ttl(command[4].deref());
            if val > 0 {
                return Some(val);
            }
        }
    }
    None
}

/// `a + b`, saturated at the largest `u64`.
pub open spec fn sat_add(a: u64, b: nat) -> u64 {
    if a + b > u64::MAX {
        u64::MAX
    } else {
        (a + b) as u64
    }
}

/// The error of a write refused for want of memory.
pub open spec fn oom_reply() -> Seq<u8> {
    error_reply(ascii("OOM command not allowed when used memory > 'maxmemory'"@))
}

/// What SET does: under the budget (or without one) it stores the entry and
/// counts its size; under `NoEviction` a write that does not fit is refused
/// with nothing changed; otherwise it evicts and then stores, or refuses.
pub open spec fn set_outcome(
    before: ShardedStore,
    after: ShardedStore,
    argv: Seq<Seq<u8>>,
    now: u64,
    out0: Seq<u8>,
    out: Seq<u8>,
) -> bool {
    let key = argv[1];
    let value = argv[2];
    let size = entry_cost(key.len(), value.len());
    let refused = out == out0 + oom_reply() && after@.submap_of(before@);
    let stored = out == out0 + simple_reply(ascii("OK"@));
    &&& same_setup(before, after)
    &&& size > usize::MAX ==> refused && unchanged(before, after)
    &&& size <= usize::MAX && fits(before.limits.max_memory, before.memory_used, size) ==> stored
        && after@ == set_model(before@, key, value, ttl_of(argv), now) && after.memory_used == (
    if before.limits.max_memory > 0 {
        sat_add(before.memory_used, size)
    } else {
        before.memory_used
    }) && after.evicted_keys == before.evicted_keys
    &&& size <= usize::MAX && !fits(before.limits.max_memory, before.memory_used, size)
        && before.limits.policy == EvictionPolicy::NoEviction ==> refused && unchanged(before, after)
    &&& size <= usize::MAX && !fits(before.limits.max_memory, before.memory_used, size)
        && before.limits.policy != EvictionPolicy::NoEviction ==> exists|
        mid: ShardedStore,
        ks: Seq<Seq<u8>>,
        ok: bool,
    |
        #![trigger evicted_all(before, mid, ks, ok, size)]
        evicted_all(before, mid, ks, ok, size) && (ok ==> stored && after@ == set_model(
            mid@,
            key,
            value,
            ttl_of(argv),
            now,
        ) && after.memory_used == sat_add(mid.memory_used, size) && after.evicted_keys
            == mid.evicted_keys) && (!ok ==> out == out0 + oom_reply() && unchanged(mid, after))
}

/// `SET key value [EX seconds]`.
fn exec_set(store: &mut ShardedStore, command: &[Bytes], writer: &mut RespWriter, now: u64)
    requires
        old(store).wf(),
        command@.len() >= 3,
    ensures
        set_outcome(
            *old(store),
            *final(store),
            keys_view(command@),
            now,
            old(writer).buffer@,
            final(writer).buffer@,
        ),
{
    proof {
        reveal_strlit("OOM command not allowed when used memory > 'maxmemory'");
        reveal_strlit("OK");
    }
    let ghost argv = keys_view(command@);
    let key = &command[1];
    let value = &command[2];
    let klen = key.len();
    let vlen = value.len();
    if vlen > usize::MAX - ENTRY_OVERHEAD || klen > usize::MAX - ENTRY_OVERHEAD - vlen {
        writer.write_error(literal("OOM command not allowed when used memory > 'maxmemory'"));
        return;
    }
    let size = entry_size(klen, vlen);
    let ghost start = *store;
    let ok = evict_if_needed(store, size);
    let ghost mid = *store;
    let ghost evicting = !fits(start.limits.max_memory, start.memory_used, size as nat)
        && start.limits.policy != EvictionPolicy::NoEviction;
    let ghost ks: Seq<Seq<u8>> = if evicting {
        choose|ks: Seq<Seq<u8>>| evicted_all(start, mid, ks, ok, size as nat)
    } else {
        Seq::empty()
    };
    if !ok {
        writer.write_error(literal("OOM command not allowed when used memory > 'maxmemory'"));
        proof {
            if evicting {
                assert(evicted_all(start, mid, ks, ok, size as nat));
            }
        }
        return;
    }
    let ttl = ttl_from(command);
    store.set(key.clone(), value.clone(), ttl, now);
    if store.limits.max_memory > 0 {
        store.memory_used = store.memory_used.saturating_add(size as u64);
    }
    writer.write_simple_string(literal("OK"));
    proof {
        if !fits(start.limits.max_memory, start.memory_used, size as nat)
            && start.limits.policy != EvictionPolicy::NoEviction {
            assert(evicted_all(start, mid, ks, ok, size as nat));
            assert(store@ == set_model(mid@, argv[1], argv[2], ttl_of(argv), now));
        }
    }
}

/// `AUTH password`.
fn exec_auth(command: &[Bytes], writer: &mut RespWriter, state: &mut ConnectionState, password: &[u8])
    ensures
        auth_outcome(
            keys_view(command@),
            password@,
            *old(state),
            *final(state),
            old(writer).buffer@,
            final(writer).buffer@,
        ),
{
    proof {
        reveal_strlit("Client sent AUTH, but no password is set");
        reveal_strlit("wrong number of arguments for 'auth' command");
        reveal_strlit("OK");
        reveal_strlit("invalid password");
    }
    if password.len() == 0 {
        writer.write_error(literal("Client sent AUTH, but no password is set"));
    } else if command.len() != 2 {
        writer.write_error(literal("wrong number of arguments for 'auth' command"));
    } else if bytes_eq(command[1].deref(), password) {
        state.authenticated = true;
        writer.write_simple_string(literal("OK"));
    } else {
        writer.write_error(literal("invalid password"));
    }
}

/// What AUTH does: with a password set and given, a match authenticates the
/// connection; every other case is an error that changes nothing.
pub open spec fn auth_outcome(
    argv: Seq<Seq<u8>>,
    password: Seq<u8>,
    before: ConnectionState,
    after: ConnectionState,
    out0: Seq<u8>,
    out: Seq<u8>,
) -> bool {
    if password.len() == 0 {
        out == out0 + error_reply(ascii("Client sent AUTH, but no password is set"@)) && after
            == before
    } else if argv.len() != 2 {
        out == out0 + error_reply(ascii("wrong number of arguments for 'auth' command"@)) && after
            == before
    } else if argv[1] == password {
        out == out0 + simple_reply(ascii("OK"@)) && after.authenticated
    } else {
        out == out0 + error_reply(ascii("invalid password"@)) && after == before
    }
}

/// The INFO figures of a store and a server context.
pub open spec fn info_stats(store: ShardedStore, ctx: ServerContext) -> InfoStats {
    InfoStats {
        process_id: ctx.process_id,
        uptime_seconds: ctx.uptime_seconds,
        connected_clients: ctx.connected_clients,
        used_memory: store.memory_used,
        max_memory: store.limits.max_memory,
        policy: store.limits.policy,
        evicted_keys: store.evicted_keys,
        total_connections: ctx.total_connections,
        total_commands: ctx.total_commands,
        rejected_connections: ctx.rejected_connections,
        keys: store.counted_len() as usize,
    }
}

/// The context is as before but for its command counter.
pub open spec fn same_context(before: ServerContext, after: ServerContext) -> bool {
    &&& after.password == before.password
    &&& after.process_id == before.process_id
    &&& after.uptime_seconds == before.uptime_seconds
    &&& after.connected_clients == before.connected_clients
    &&& after.total_connections == before.total_connections
    &&& after.rejected_connections == before.rejected_connections
}

/// The reply to a GET.
pub open spec fn get_reply(r: Option<Seq<u8>>) -> Seq<u8> {
    match r {
        Some(v) => bulk_reply(v),
        None => null_reply(),
    }
}

/// Runs one command: counts it, then answers it in the writer, changing the
/// keyspace and the connection's state as the command says. Only PING and
/// AUTH are answered before the connection is authenticated.
pub fn execute_command(
    store: &mut ShardedStore,
    command: &[Bytes],
    writer: &mut RespWriter,
    state: &mut ConnectionState,
    now: u64,
    ctx: &mut ServerContext,
)
    requires
        old(store).wf(),
    ensures
        final(store).wf(),
        final(ctx).total_commands == (if old(ctx).total_commands == u64::MAX {
            u64::MAX
        } else {
            (old(ctx).total_commands + 1) as u64
        }),
        same_context(*old(ctx), *final(ctx)),
        ({
            let argv = keys_view(command@);
            let k = command_kind(argv);
            let out0 = old(writer).buffer@;
            let out = final(writer).buffer@;
            let blocked = k == CommandKind::Empty || (needs_auth(k) && !old(state).authenticated);
            let quiet = *final(store) == *old(store) && *final(state) == *old(state);
            &&& k == CommandKind::Empty ==> quiet && out == out0 + error_reply(
                ascii("empty command"@),
            )
            &&& k != CommandKind::Empty && needs_auth(k) && !old(state).authenticated ==> quiet
                && out == out0 + error_reply(ascii("NOAUTH Authentication required"@))
            &&& !blocked && k == CommandKind::Ping ==> quiet && out == out0 + simple_reply(
                ascii("PONG"@),
            )
            &&& !blocked && k == CommandKind::Auth ==> *final(store) == *old(store) && auth_outcome(
                argv,
                old(ctx).password@,
                *old(state),
                *final(state),
                out0,
                out,
            )
            &&& !blocked && k == CommandKind::SetEntry ==> *final(state) == *old(state) && set_outcome(
                *old(store),
                *final(store),
                argv,
                now,
                out0,
                out,
            )
            &&& !blocked && k == CommandKind::Get ==> *final(state) == *old(state)
                && final(store).same_accounting(old(store)) && final(store)@ == after_get(
                old(store)@,
                argv[1],
                now,
            ) && out == out0 + get_reply(get_result(old(store)@, argv[1], now))
            &&& !blocked && k == CommandKind::Del ==> *final(state) == *old(state)
                && final(store).same_accounting(old(store)) && final(store)@ == old(
                store,
            )@.remove_keys(argv.drop_first().to_set()) && out == out0 + integer_reply(
                old(store)@.dom().intersect(argv.drop_first().to_set()).len(),
            )
            &&& !blocked && k == CommandKind::Exists ==> quiet && out == out0 + integer_reply(
                live_count(old(store)@, argv.drop_first(), now),
            )
            &&& !blocked && k == CommandKind::Keys ==> quiet && exists|ks: Seq<Seq<u8>>|
                ks.no_duplicates() && ks.to_set() == live_keys(old(store)@, now) && out == out0
                    + array_reply(ks)
            &&& !blocked && k == CommandKind::DbSize ==> quiet && out == out0 + integer_reply(
                old(store).counted_len(),
            )
            &&& !blocked && k == CommandKind::FlushDb ==> *final(state) == *old(state)
                && final(store).same_accounting(old(store)) && final(store)@ == StoreModel::empty()
                && final(store).counted_len() == 0 && out == out0 + simple_reply(ascii("OK"@))
            &&& !blocked && k == CommandKind::Info ==> quiet && out == out0 + bulk_reply(
                info_body(info_stats(*old(store), *final(ctx))),
            )
            &&& !blocked && k == CommandKind::Stub ==> quiet && out == out0 + ascii("*0\r\n"@)
            &&& !blocked && k == CommandKind::WrongArity ==> quiet && out == out0 + error_reply(
                ascii("wrong number of arguments"@),
            )
            &&& !blocked && k == CommandKind::Unknown ==> quiet && out == out0 + error_reply(
                ascii("unknown command"@),
            )
        }),
{
    proof {
        reveal_strlit("empty command");
        reveal_strlit("NOAUTH Authentication required");
        reveal_strlit("PONG");
        reveal_strlit("OK");
        reveal_strlit("*0\r\n");
        reveal_strlit("wrong number of arguments");
        reveal_strlit("unknown command");
    }
    ctx.total_commands = ctx.total_commands.saturating_add(1);
    let ghost argv = keys_view(command@);
    let kind = classify(command);
    if kind == CommandKind::Empty {
        writer.write_error(literal("empty command"));
        return;
    }
    let open = kind == CommandKind::Ping || kind == CommandKind::Auth;
    if !open && !state.authenticated {
        writer.write_error(literal("NOAUTH Authentication required"));
        return;
    }
    match kind {
        CommandKind::Ping => {
            writer.write_simple_string(literal("PONG"));
        },
        CommandKind::Auth => {
            exec_auth(command, writer, state, ctx.password.as_slice());
        },
        CommandKind::SetEntry => {
            exec_set(store, command, writer, now);
        },
        CommandKind::Get => {
            match store.get(command[1].deref(), now) {
                Some(v) => writer.write_bulk_string(v.deref()),
                None => writer.write_null(),
            }
        },
        CommandKind::Del => {
            let rest = &command[1..command.len()];
            assert(keys_view(rest@) =~= argv.drop_first());
            let count = store.delete(rest);
            writer.write_integer(count);
        },
        CommandKind::Exists => {
            let rest = &command[1..command.len()];
            assert(keys_view(rest@) =~= argv.drop_first());
            let count = store.exists_keys(rest, now);
            writer.write_integer(count);
        },
        CommandKind::Keys => {
            let keys = store.keys(now);
            writer.write_array(keys.as_slice());
            assert(keys_view(keys@).no_duplicates());
        },
        CommandKind::DbSize => {
            let n = store.len();
            writer.write_integer(n);
        },
        CommandKind::FlushDb => {
            store.clear();
            proof {
                crate::laws::lemma_empty_shards_count(*store);
            }
            writer.write_simple_string(literal("OK"));
        },
        CommandKind::Info => {
            let stats = InfoStats {
                process_id: ctx.process_id,
                uptime_seconds: ctx.uptime_seconds,
                connected_clients: ctx.connected_clients,
                used_memory: store.memory_used,
                max_memory: store.limits.max_memory,
                policy: store.limits.policy,
                evicted_keys: store.evicted_keys,
                total_connections: ctx.total_connections,
                total_commands: ctx.total_commands,
                rejected_connections: ctx.rejected_connections,
                keys: store.len(),
            };
            let body = info_text(&stats);
            writer.write_bulk_string(body.as_slice());
        },
        CommandKind::Stub => {
            writer.write_raw(literal("*0\r\n"));
        },
        CommandKind::WrongArity => {
            writer.write_error(literal("wrong number of arguments"));
        },
        CommandKind::Unknown => {
            writer.write_error(literal("unknown command"));
        },
        CommandKind::Empty => {},
    }
}

} // verus!
