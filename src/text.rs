//! Text that the server produces: decimal numbers, human-readable byte
//! sizes, the INFO report and the health-check document.
use vstd::prelude::*;
use vstd::utf8::is_ascii_chars;

use crate::config::{policy_name, EvictionPolicy};
use crate::foreign::ascii_string;
use crate::resp::{ascii, decimal};

verus! {

pub const KIB: u64 = 1024;

pub const MIB: u64 = 1048576;

pub const GIB: u64 = 1073741824;

/// `a / d` rounded to the nearest whole number, ties to the even one.
pub open spec fn round_half_even(a: nat, d: nat) -> nat {
    let q = a / d;
    let r = a % d;
    if 2 * r > d || (2 * r == d && q % 2 == 1) {
        q + 1
    } else {
        q
    }
}

/// Two decimal digits of a number below 100.
pub open spec fn two_digits(x: nat) -> Seq<u8> {
    seq![(48 + x / 10) as u8, (48 + x % 10) as u8]
}

/// `n / unit` with two decimal places.
pub open spec fn scaled(n: nat, unit: nat) -> Seq<u8> {
    let h = round_half_even(n * 100, unit);
    decimal(h / 100) + seq![46u8] + two_digits(h % 100)
}

/// A byte count in `B`, or in `KB`, `MB` or `GB` (steps of 1024) with two
/// decimal places.
pub open spec fn human_bytes(n: nat) -> Seq<u8> {
    if n >= GIB {
        scaled(n, GIB as nat) + ascii("GB"@)
    } else if n >= MIB {
        scaled(n, MIB as nat) + ascii("MB"@)
    } else if n >= KIB {
        scaled(n, KIB as nat) + ascii("KB"@)
    } else {
        decimal(n) + ascii("B"@)
    }
}

/// Every byte is ASCII.
pub open spec fn all_ascii(s: Seq<u8>) -> bool {
    forall|i: int| 0 <= i < s.len() ==> #[trigger] s[i] < 128
}

/// The characters of ASCII bytes.
pub open spec fn chars_of(s: Seq<u8>) -> Seq<char> {
    s.map_values(|b: u8| b as char)
}

/// Appends the decimal digits of `n`.
pub fn push_decimal(out: &mut Vec<u8>, n: u64)
    ensures
        final(out)@ == old(out)@ + decimal(n as nat),
    decreases n,
{
    if n >= 10 {
        push_decimal(out, n / 10);
    }
    out.push(48 + (n % 10) as u8);
    assert(out@ =~= old(out)@ + decimal(n as nat));
}

/// Appends the bytes of an ASCII string.
pub fn push_text(out: &mut Vec<u8>, s: &str)
    requires
        is_ascii_chars(s@),
    ensures
        final(out)@ == old(out)@ + ascii(s@),
{
    out.extend_from_slice(crate::resp::literal(s));
}

proof fn lemma_decimal_ascii(n: nat)
    ensures
        all_ascii(decimal(n)),
    decreases n,
{
    if n >= 10 {
        lemma_decimal_ascii(n / 10);
    }
}

fn push_scaled(out: &mut Vec<u8>, n: u64, unit: u64)
    requires
        unit > 0,
    ensures
        final(out)@ == old(out)@ + scaled(n as nat, unit as nat),
{
    let a: u128 = (n as u128) * 100;
    let d: u128 = unit as u128;
    let q = a / d;
    let r = a % d;
    let h: u128 = if 2 * r > d || (2 * r == d && q % 2 == 1) {
        q + 1
    } else {
        q
    };
    assert(h == round_half_even(n as nat * 100, unit as nat));
    assert(q <= a) by (nonlinear_arith)
        requires
            q == a / d,
            d > 0,
    ;
    assert(h / 100 <= n) by (nonlinear_arith)
        requires
            h <= a + 1,
            a == n * 100,
    ;
    push_decimal(out, (h / 100) as u64);
    out.push(46);
    let x = h % 100;
    out.push(48 + (x / 10) as u8);
    out.push(48 + (x % 10) as u8);
    assert(out@ =~= old(out)@ + scaled(n as nat, unit as nat));
}

/// Appends `n` as `human_bytes` writes it.
pub fn push_human_bytes(out: &mut Vec<u8>, n: u64)
    ensures
        final(out)@ == old(out)@ + human_bytes(n as nat),
{
    proof {
        reveal_strlit("GB");
        reveal_strlit("MB");
        reveal_strlit("KB");
        reveal_strlit("B");
    }
    if n >= GIB {
        push_scaled(out, n, GIB);
        push_text(out, "GB");
    } else if n >= MIB {
        push_scaled(out, n, MIB);
        push_text(out, "MB");
    } else if n >= KIB {
        push_scaled(out, n, KIB);
        push_text(out, "KB");
    } else {
        push_decimal(out, n);
        push_text(out, "B");
    }
    assert(out@ =~= old(out)@ + human_bytes(n as nat));
}

proof fn lemma_human_ascii(n: nat)
    ensures
        all_ascii(human_bytes(n)),
{
    reveal_strlit("GB");
    reveal_strlit("MB");
    reveal_strlit("KB");
    reveal_strlit("B");
    if n >= KIB {
        let unit: nat = if n >= GIB {
            GIB as nat
        } else if n >= MIB {
            MIB as nat
        } else {
            KIB as nat
        };
        let h = round_half_even(n * 100, unit);
        lemma_decimal_ascii(h / 100);
        assert(all_ascii(scaled(n, unit)));
    } else {
        lemma_decimal_ascii(n);
    }
}

/// A byte count as a human-readable string: `500B`, `1.00KB`, `1.50MB`.
pub fn format_bytes(bytes: u64) -> (r: String)
    ensures
        r@ == chars_of(human_bytes(bytes as nat)),
{
    let mut out: Vec<u8> = Vec::new();
    push_human_bytes(&mut out, bytes);
    proof {
        lemma_human_ascii(bytes as nat);
        assert(out@ =~= human_bytes(bytes as nat));
    }
    ascii_string(out)
}


/// The figures that the INFO report shows.
pub struct InfoStats {
    pub process_id: u32,
    pub uptime_seconds: u64,
    pub connected_clients: u64,
    pub used_memory: u64,
    pub max_memory: u64,
    pub policy: EvictionPolicy,
    pub evicted_keys: u64,
    pub total_connections: u64,
    pub total_commands: u64,
    pub rejected_connections: u64,
    pub keys: usize,
}

/// The INFO report: `key:value` lines under `# Section` headers.
pub open spec fn info_body(s: InfoStats) -> Seq<u8> {
    ascii(
        "# Server\r\nredis_version:7.0.0\r\nredis_mode:standalone\r\nos:Redistill\r\narch_bits:64\r\nprocess_id:"@,
    ) + decimal(s.process_id as nat) + ascii("\r\nuptime_in_seconds:"@) + decimal(
        s.uptime_seconds as nat,
    ) + ascii("\r\n\r\n# Clients\r\nconnected_clients:"@) + decimal(s.connected_clients as nat)
        + ascii("\r\n\r\n# Memory\r\nused_memory:"@) + decimal(s.used_memory as nat) + ascii(
        "\r\nused_memory_human:"@,
    ) + human_bytes(s.used_memory as nat) + ascii("\r\nmaxmemory:"@) + decimal(
        s.max_memory as nat,
    ) + ascii("\r\nmaxmemory_human:"@) + (if s.max_memory > 0 {
        human_bytes(s.max_memory as nat)
    } else {
        ascii("unlimited"@)
    }) + ascii("\r\nmaxmemory_policy:"@) + ascii(policy_name(s.policy)) + ascii(
        "\r\nevicted_keys:"@,
    ) + decimal(s.evicted_keys as nat) + ascii(
        "\r\n\r\n# Stats\r\ntotal_connections_received:"@,
    ) + decimal(s.total_connections as nat) + ascii("\r\ntotal_commands_processed:"@)
        + decimal(s.total_commands as nat) + ascii("\r\nrejected_connections:"@) + decimal(
        s.rejected_connections as nat,
    ) + ascii("\r\n\r\n# Keyspace\r\ndb0:keys="@) + decimal(s.keys as nat) + ascii(
        ",expires=0,avg_ttl=0\r\n"@,
    )
}

/// The INFO report for these figures.
pub fn info_text(s: &InfoStats) -> (r: Vec<u8>)
    ensures
        r@ == info_body(*s),
{
    proof {
        reveal_strlit(
            "# Server\r\nredis_version:7.0.0\r\nredis_mode:standalone\r\nos:Redistill\r\narch_bits:64\r\nprocess_id:",
        );
        reveal_strlit("\r\nuptime_in_seconds:");
        reveal_strlit("\r\n\r\n# Clients\r\nconnected_clients:");
        reveal_strlit("\r\n\r\n# Memory\r\nused_memory:");
        reveal_strlit("\r\nused_memory_human:");
        reveal_strlit("\r\nmaxmemory:");
        reveal_strlit("\r\nmaxmemory_human:");
        reveal_strlit("unlimited");
        reveal_strlit("\r\nmaxmemory_policy:");
        reveal_strlit("noeviction");
        reveal_strlit("allkeys-lru");
        reveal_strlit("allkeys-random");
        reveal_strlit("\r\nevicted_keys:");
        reveal_strlit("\r\n\r\n# Stats\r\ntotal_connections_received:");
        reveal_strlit("\r\ntotal_commands_processed:");
        reveal_strlit("\r\nrejected_connections:");
        reveal_strlit("\r\n\r\n# Keyspace\r\ndb0:keys=");
        reveal_strlit(",expires=0,avg_ttl=0\r\n");
    }
    let mut out: Vec<u8> = Vec::new();
    push_text(
        &mut out,
        "# Server\r\nredis_version:7.0.0\r\nredis_mode:standalone\r\nos:Redistill\r\narch_bits:64\r\nprocess_id:",
    );
    push_decimal(&mut out, s.process_id as u64);
    push_text(&mut out, "\r\nuptime_in_seconds:");
    push_decimal(&mut out, s.uptime_seconds);
    push_text(&mut out, "\r\n\r\n# Clients\r\nconnected_clients:");
    push_decimal(&mut out, s.connected_clients);
    push_text(&mut out, "\r\n\r\n# Memory\r\nused_memory:");
    push_decimal(&mut out, s.used_memory);
    push_text(&mut out, "\r\nused_memory_human:");
    push_human_bytes(&mut out, s.used_memory);
    push_text(&mut out, "\r\nmaxmemory:");
    push_decimal(&mut out, s.max_memory);
    push_text(&mut out, "\r\nmaxmemory_human:");
    if s.max_memory > 0 {
        push_human_bytes(&mut out, s.max_memory);
    } else {
        push_text(&mut out, "unlimited");
    }
    push_text(&mut out, "\r\nmaxmemory_policy:");
    push_text(&mut out, s.policy.as_str());
    push_text(&mut out, "\r\nevicted_keys:");
    push_decimal(&mut out, s.evicted_keys);
    push_text(&mut out, "\r\n\r\n# Stats\r\ntotal_connections_received:");
    push_decimal(&mut out, s.total_connections);
    push_text(&mut out, "\r\ntotal_commands_processed:");
    push_decimal(&mut out, s.total_commands);
    push_text(&mut out, "\r\nrejected_connections:");
    push_decimal(&mut out, s.rejected_connections);
    push_text(&mut out, "\r\n\r\n# Keyspace\r\ndb0:keys=");
    push_decimal(&mut out, s.keys as u64);
    push_text(&mut out, ",expires=0,avg_ttl=0\r\n");
    assert(out@ =~= info_body(*s));
    out
}

/// The figures that the health check reports.
pub struct HealthStats {
    pub uptime_seconds: u64,
    pub active_connections: u64,
    pub total_connections: u64,
    pub rejected_connections: u64,
    pub memory_used: u64,
    pub max_memory: u64,
    pub evicted_keys: u64,
    pub total_commands: u64,
}

/// The health-check document, a JSON object of the figures.
pub open spec fn health_body(s: HealthStats) -> Seq<u8> {
    ascii("{\"status\":\"ok\",\"uptime_seconds\":"@) + decimal(s.uptime_seconds as nat) + ascii(
        ",\"active_connections\":"@,
    ) + decimal(s.active_connections as nat) + ascii(",\"total_connections\":"@) + decimal(
        s.total_connections as nat,
    ) + ascii(",\"rejected_connections\":"@) + decimal(s.rejected_connections as nat) + ascii(
        ",\"memory_used\":"@,
    ) + decimal(s.memory_used as nat) + ascii(",\"max_memory\":"@) + decimal(
        s.max_memory as nat,
    ) + ascii(",\"evicted_keys\":"@) + decimal(s.evicted_keys as nat) + ascii(
        ",\"total_commands\":"@,
    ) + decimal(s.total_commands as nat) + ascii("}"@)
}

/// The health-check document for these figures.
pub fn health_text(s: &HealthStats) -> (r: Vec<u8>)
    ensures
        r@ == health_body(*s),
{
    proof {
        reveal_strlit("{\"status\":\"ok\",\"uptime_seconds\":");
        reveal_strlit(",\"active_connections\":");
        reveal_strlit(",\"total_connections\":");
        reveal_strlit(",\"rejected_connections\":");
        reveal_strlit(",\"memory_used\":");
        reveal_strlit(",\"max_memory\":");
        reveal_strlit(",\"evicted_keys\":");
        reveal_strlit(",\"total_commands\":");
        reveal_strlit("}");
    }
    let mut out: Vec<u8> = Vec::new();
    push_text(&mut out, "{\"status\":\"ok\",\"uptime_seconds\":");
    push_decimal(&mut out, s.uptime_seconds);
    push_text(&mut out, ",\"active_connections\":");
    push_decimal(&mut out, s.active_connections);
    push_text(&mut out, ",\"total_connections\":");
    push_decimal(&mut out, s.total_connections);
    push_text(&mut out, ",\"rejected_connections\":");
    push_decimal(&mut out, s.rejected_connections);
    push_text(&mut out, ",\"memory_used\":");
    push_decimal(&mut out, s.memory_used);
    push_text(&mut out, ",\"max_memory\":");
    push_decimal(&mut out, s.max_memory);
    push_text(&mut out, ",\"evicted_keys\":");
    push_decimal(&mut out, s.evicted_keys);
    push_text(&mut out, ",\"total_commands\":");
    push_decimal(&mut out, s.total_commands);
    push_text(&mut out, "}");
    assert(out@ =~= health_body(*s));
    out
}

} // verus!
