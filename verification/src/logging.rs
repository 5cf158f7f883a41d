//! Log levels and trace identifiers.

use vstd::prelude::*;
use vstd::string::StringSliceAdditionalSpecFns;
use std::str::FromStr;
use rand::Rng;
use crate::text::{hex_padded, hex_padded_spec, is_lower_hex_digit, lemma_hex_padded_shape};

verus! {

/// The severity levels of log records, most severe first.
#[derive(Clone, Copy, PartialEq, Eq, Structural, Debug)]
pub enum LogLevel {
    Critical,
    Error,
    Warning,
    Info,
    Debug,
    Trace,
}

/// A byte in ASCII lower case.
pub open spec fn ascii_lower(b: u8) -> u8 {
    if 0x41 <= b && b <= 0x5a {
        (b + 0x20) as u8
    } else {
        b
    }
}

/// Equality of byte strings ignoring ASCII case.
pub open spec fn eq_ignore_ascii_case(a: Seq<u8>, b: Seq<u8>) -> bool {
    a.len() == b.len() && forall|k: int| 0 <= k < a.len() ==> ascii_lower(#[trigger] a[k])
        == ascii_lower(b[k])
}

/// The level names that slog accepts, longest form, indexed from `OFF` (0)
/// to `TRACE` (6).
pub open spec fn long_level_name(i: int) -> Seq<u8> {
    if i == 0 {
        seq![0x4fu8, 0x46, 0x46]
    } else if i == 1 {
        seq![0x43u8, 0x52, 0x49, 0x54, 0x49, 0x43, 0x41, 0x4c]
    } else if i == 2 {
        seq![0x45u8, 0x52, 0x52, 0x4f, 0x52]
    } else if i == 3 {
        seq![0x57u8, 0x41, 0x52, 0x4e, 0x49, 0x4e, 0x47]
    } else if i == 4 {
        seq![0x49u8, 0x4e, 0x46, 0x4f]
    } else if i == 5 {
        seq![0x44u8, 0x45, 0x42, 0x55, 0x47]
    } else {
        seq![0x54u8, 0x52, 0x41, 0x43, 0x45]
    }
}

/// The short level names that slog accepts, indexed as the long ones:
/// `OFF`, `CRIT`, `ERRO`, `WARN`, `INFO`, `DEBG`, `TRCE`.
pub open spec fn short_level_name(i: int) -> Seq<u8> {
    if i == 0 {
        seq![0x4fu8, 0x46, 0x46]
    } else if i == 1 {
        seq![0x43u8, 0x52, 0x49, 0x54]
    } else if i == 2 {
        seq![0x45u8, 0x52, 0x52, 0x4f]
    } else if i == 3 {
        seq![0x57u8, 0x41, 0x52, 0x4e]
    } else if i == 4 {
        seq![0x49u8, 0x4e, 0x46, 0x4f]
    } else if i == 5 {
        seq![0x44u8, 0x45, 0x42, 0x47]
    } else {
        seq![0x54u8, 0x52, 0x43, 0x45]
    }
}

/// Whether `needle` names table entry `hay`: it is not empty and equals,
/// ignoring ASCII case, the first `needle.len()` bytes of `hay` (all of
/// `hay` when that is shorter).
pub open spec fn names_entry(hay: Seq<u8>, needle: Seq<u8>) -> bool {
    let n = if needle.len() < hay.len() {
        needle.len()
    } else {
        hay.len()
    };
    needle.len() > 0 && eq_ignore_ascii_case(hay.subrange(0, n as int), needle)
}

/// The first index, from `i` on, of a table entry that `needle` names.
pub open spec fn first_named(table: spec_fn(int) -> Seq<u8>, needle: Seq<u8>, i: int) -> Option<int>
    decreases 7 - i,
{
    if i >= 7 || i < 0 {
        None
    } else if names_entry(table(i), needle) {
        Some(i)
    } else {
        first_named(table, needle, i + 1)
    }
}

/// The level that a name denotes: found first among the long names, then
/// among the short ones; `OFF` and unknown names denote none.
pub open spec fn parse_level_spec(name: Seq<u8>) -> Option<LogLevel> {
    let idx = match first_named(|i: int| long_level_name(i), name, 0) {
        Some(i) => Some(i),
        None => first_named(|i: int| short_level_name(i), name, 0),
    };
    match idx {
        Some(i) => if i == 1 {
            Some(LogLevel::Critical)
        } else if i == 2 {
            Some(LogLevel::Error)
        } else if i == 3 {
            Some(LogLevel::Warning)
        } else if i == 4 {
            Some(LogLevel::Info)
        } else if i == 5 {
            Some(LogLevel::Debug)
        } else if i == 6 {
            Some(LogLevel::Trace)
        } else {
            None
        },
        None => None,
    }
}

/// The level a log-level index denotes: `1` (critical) to `6` (trace).
pub open spec fn level_of_index(i: int) -> LogLevel {
    if i == 1 {
        LogLevel::Critical
    } else if i == 2 {
        LogLevel::Error
    } else if i == 3 {
        LogLevel::Warning
    } else if i == 4 {
        LogLevel::Info
    } else if i == 5 {
        LogLevel::Debug
    } else {
        LogLevel::Trace
    }
}

/// Each level's own name, long or short, selects that level.
pub proof fn lemma_level_names_select(i: int)
    requires
        1 <= i <= 6,
    ensures
        parse_level_spec(long_level_name(i)) == Some(level_of_index(i)),
        parse_level_spec(short_level_name(i)) == Some(level_of_index(i)),
{
    let long = |j: int| long_level_name(j);
    let short = |j: int| short_level_name(j);
    let n = long_level_name(i);
    let m = short_level_name(i);
    assert(names_entry(long(i), n)) by {
        assert(long(i).subrange(0, n.len() as int) =~= n);
    }
    // every entry before `i` differs from the name in its first byte
    assert forall|j: int| 0 <= j < i implies !names_entry(#[trigger] long(j), n) by {
        assert(long(j)[0] != n[0]);
        assert(ascii_lower(long(j)[0]) != ascii_lower(n[0]));
        let k = if n.len() < long(j).len() { n.len() } else { long(j).len() };
        assert(long(j).subrange(0, k as int)[0] == long(j)[0]);
    }
    lemma_first_named_at(long, n, 0, i);
    // a short name is a prefix of its long name, except `DEBG` and `TRCE`
    if i == 5 || i == 6 {
        assert forall|j: int| 0 <= j < 7 implies !names_entry(#[trigger] long(j), m) by {
            if j == i {
                assert(long(j)[3] != m[3]);
                assert(ascii_lower(long(j)[3]) != ascii_lower(m[3]));
                assert(long(j).subrange(0, 4)[3] == long(j)[3]);
            } else {
                assert(long(j)[0] != m[0]);
                assert(ascii_lower(long(j)[0]) != ascii_lower(m[0]));
                let k = if m.len() < long(j).len() { m.len() } else { long(j).len() };
                assert(long(j).subrange(0, k as int)[0] == long(j)[0]);
            }
        }
        lemma_first_named_none(long, m, 0);
        assert(names_entry(short(i), m)) by {
            assert(short(i).subrange(0, m.len() as int) =~= m);
        }
        assert forall|j: int| 0 <= j < i implies !names_entry(#[trigger] short(j), m) by {
            assert(short(j)[0] != m[0]);
            assert(ascii_lower(short(j)[0]) != ascii_lower(m[0]));
            let k = if m.len() < short(j).len() { m.len() } else { short(j).len() };
            assert(short(j).subrange(0, k as int)[0] == short(j)[0]);
        }
        lemma_first_named_at(short, m, 0, i);
    } else {
        assert(names_entry(long(i), m)) by {
            assert(long(i).subrange(0, m.len() as int) =~= m);
        }
        assert forall|j: int| 0 <= j < i implies !names_entry(#[trigger] long(j), m) by {
            assert(long(j)[0] != m[0]);
            assert(ascii_lower(long(j)[0]) != ascii_lower(m[0]));
            let k = if m.len() < long(j).len() { m.len() } else { long(j).len() };
            assert(long(j).subrange(0, k as int)[0] == long(j)[0]);
        }
        lemma_first_named_at(long, m, 0, i);
    }
}

proof fn lemma_first_named_at(table: spec_fn(int) -> Seq<u8>, needle: Seq<u8>, from: int, i: int)
    requires
        0 <= from <= i < 7,
        names_entry(table(i), needle),
        forall|j: int| from <= j < i ==> !names_entry(#[trigger] table(j), needle),
    ensures
        first_named(table, needle, from) == Some(i),
    decreases i - from,
{
    if from < i {
        lemma_first_named_at(table, needle, from + 1, i);
    }
}

proof fn lemma_first_named_none(table: spec_fn(int) -> Seq<u8>, needle: Seq<u8>, from: int)
    requires
        0 <= from <= 7,
        forall|j: int| from <= j < 7 ==> !names_entry(#[trigger] table(j), needle),
    ensures
        first_named(table, needle, from) is None,
    decreases 7 - from,
{
    if from < 7 {
        lemma_first_named_none(table, needle, from + 1);
    }
}

/// slog's `Level::from_str`: the level whose long or short name begins
/// with the text, ignoring ASCII case, as `parse_level_spec` states; `None` for
/// its error.
#[verifier::external_body]
fn slog_level_from_str(name: &str) -> (r: Option<LogLevel>)
    ensures
        r == parse_level_spec(name.spec_bytes()),
{
    match slog::Level::from_str(name) {
        Ok(slog::Level::Critical) => Some(LogLevel::Critical),
        Ok(slog::Level::Error) => Some(LogLevel::Error),
        Ok(slog::Level::Warning) => Some(LogLevel::Warning),
        Ok(slog::Level::Info) => Some(LogLevel::Info),
        Ok(slog::Level::Debug) => Some(LogLevel::Debug),
        Ok(slog::Level::Trace) => Some(LogLevel::Trace),
        Err(()) => None,
    }
}

/// The level a configured log-level name selects; `None` when the name
/// denotes no level.
pub fn parse_level(name: &str) -> (r: Option<LogLevel>)
    ensures
        r == parse_level_spec(name.spec_bytes()),
{
    slog_level_from_str(name)
}

/// The level of the drain that `set_level` switches to: critical records
/// share the error drain, every other level has a drain of its own.
pub open spec fn drain_level_spec(level: LogLevel) -> LogLevel {
    match level {
        LogLevel::Critical => LogLevel::Error,
        LogLevel::Error => LogLevel::Error,
        LogLevel::Warning => LogLevel::Warning,
        LogLevel::Info => LogLevel::Info,
        LogLevel::Debug => LogLevel::Debug,
        LogLevel::Trace => LogLevel::Trace,
    }
}

/// Chooses the drain that `set_level` switches to.
pub fn drain_level(level: LogLevel) -> (r: LogLevel)
    ensures
        r == drain_level_spec(level),
{
    match level {
        LogLevel::Critical | LogLevel::Error => LogLevel::Error,
        LogLevel::Warning => LogLevel::Warning,
        LogLevel::Info => LogLevel::Info,
        LogLevel::Debug => LogLevel::Debug,
        LogLevel::Trace => LogLevel::Trace,
    }
}

/// The big-endian value of four bytes, as `u32::from_be_bytes` reads them.
pub open spec fn be_u32(b: [u8; 4]) -> nat {
    (b[0] as nat) * 0x100_0000 + (b[1] as nat) * 0x1_0000 + (b[2] as nat) * 0x100 + (b[3] as nat)
}

/// The trace identifier written for four random bytes: their big-endian
/// value in lowercase hexadecimal, at least four digits wide.
pub open spec fn trace_id_spec(b: [u8; 4]) -> Seq<char> {
    hex_padded_spec(be_u32(b), 4)
}

/// Writes the trace identifier for four bytes.
pub fn trace_id_from_bytes(bytes: [u8; 4]) -> (r: String)
    ensures
        r@ == trace_id_spec(bytes),
{
    let v: u32 = (bytes[0] as u32) * 0x100_0000 + (bytes[1] as u32) * 0x1_0000 + (bytes[2] as u32)
        * 0x100 + (bytes[3] as u32);
    hex_padded(v, 4)
}

/// A trace identifier is four to eight lowercase hexadecimal digits.
pub proof fn lemma_trace_id_shape(b: [u8; 4])
    ensures
        4 <= trace_id_spec(b).len() <= 8,
        forall|k: int|
            0 <= k < trace_id_spec(b).len() ==> is_lower_hex_digit(#[trigger] trace_id_spec(b)[k]),
{
    assert(be_u32(b) < 0x1_0000_0000);
    lemma_hex_padded_shape(be_u32(b));
}

/// Four bytes from the thread's random number generator (`ThreadRng`).
/// Nothing is stated of their value.
#[verifier::external_body]
fn random_bytes() -> [u8; 4] {
    rand::rngs::ThreadRng::default().random::<[u8; 4]>()
}

/// A fresh trace identifier for a request: four random bytes, written as
/// `trace_id_from_bytes` writes them.
pub fn new_trace_id() -> (r: String)
    ensures
        exists|b: [u8; 4]| r@ == trace_id_spec(b),
{
    let b = random_bytes();
    trace_id_from_bytes(b)
}

} // verus!
