//! The record transform: normalizes a decoded log record into the canonical
//! event shape (one `@timestamp` field, a named severity, a `message` field),
//! and the derivation of the day-partitioned index name.

use vstd::prelude::*;

use crate::codec::chars_to_string;
use crate::codec::dec_digits;
use crate::codec::str_to_chars;
use crate::codec::write_u64;
use crate::json::rmap;
use crate::json::JVal;
use crate::json::Record;

verus! {

/// A decimal digit character.
pub open spec fn is_digit(c: char) -> bool {
    48 <= (c as u32) <= 57
}

/// The shape `YYYY-MM-DDTHH:mm:ss.sssZ`: 24 characters, digits in the date,
/// time and millisecond positions, the fixed separators in between.
pub open spec fn is_ts_shape(s: Seq<char>) -> bool {
    &&& s.len() == 24
    &&& forall|i: int|
        (0 <= i < 24 && i != 4 && i != 7 && i != 10 && i != 13 && i != 16 && i != 19 && i != 23)
            ==> is_digit(#[trigger] s[i])
    &&& s[4] == '-'
    &&& s[7] == '-'
    &&& s[10] == 'T'
    &&& s[13] == ':'
    &&& s[16] == ':'
    &&& s[19] == '.'
    &&& s[23] == 'Z'
}

/// Relies on chrono's Utc::now and DateTime::format with
/// `%Y-%m-%dT%H:%M:%S%.3fZ`: the current UTC instant, zero-padded fields and
/// a four-digit year, which always has the shape `YYYY-MM-DDTHH:mm:ss.sssZ`.
#[verifier::external_body]
pub(crate) fn now_timestamp() -> (r: String)
    ensures
        is_ts_shape(r@),
{
    chrono::Utc::now().format("%Y-%m-%dT%H:%M:%S%.3fZ").to_string()
}

/// The name of a numeric severity, by the fixed table; any value outside the
/// table names itself.
pub open spec fn spec_level_name(level: u64) -> Seq<char> {
    if level == 10 {
        "trace"@
    } else if level == 20 {
        "debug"@
    } else if level == 30 {
        "info"@
    } else if level == 40 {
        "warn"@
    } else if level == 50 {
        "error"@
    } else if level == 60 {
        "fatal"@
    } else {
        "Unknown level "@ + dec_digits(level as nat)
    }
}

/// The severity name for a numeric level.
pub fn int_to_level(level: u64) -> (r: String)
    ensures
        r@ == spec_level_name(level),
{
    match level {
        10 => String::from_str("trace"),
        20 => String::from_str("debug"),
        30 => String::from_str("info"),
        40 => String::from_str("warn"),
        50 => String::from_str("error"),
        60 => String::from_str("fatal"),
        _ => {
            let mut out = str_to_chars("Unknown level ");
            write_u64(level, &mut out);
            chars_to_string(&out)
        },
    }
}

/// A value that can be read as an unsigned integer.
pub open spec fn is_uint(v: JVal) -> bool {
    v matches JVal::Num { neg, mag } && !neg
}

/// The unsigned integer a value holds.
pub open spec fn uint_val(v: JVal) -> u64 {
    match v {
        JVal::Num { neg, mag } => mag,
        _ => 0,
    }
}

/// A record whose `level` field, if present, can be read as an unsigned
/// integer.
pub open spec fn level_ok(m: Map<Seq<char>, JVal>) -> bool {
    m.contains_key("level"@) ==> is_uint(m["level"@])
}

/// Why a record could not be normalized.
#[derive(Clone, Copy, Debug, PartialEq, Eq, Structural)]
pub enum TransformError {
    /// The record has a `level` field that is not an unsigned integer.
    LevelNotUnsigned,
}

/// How a normalized event relates to the record it came from: `time` moved
/// verbatim to `@timestamp` (else `@timestamp` is the stamp `now`), a numeric
/// `level` replaced by its name, `msg` moved to `message`, every other field
/// unchanged.
pub open spec fn transform_rel(m: Map<Seq<char>, JVal>, now: Seq<char>, out: Record) -> bool {
    &&& out.wf()
    &&& !rmap(out).contains_key("time"@)
    &&& !rmap(out).contains_key("msg"@)
    &&& rmap(out).contains_key("@timestamp"@)
    &&& (m.contains_key("time"@) ==> rmap(out)["@timestamp"@] == m["time"@])
    &&& (!m.contains_key("time"@) ==> (rmap(out)["@timestamp"@] matches JVal::Str(v) && v@
        == now))
    &&& (m.contains_key("level"@) ==> rmap(out).contains_key("level"@) && (rmap(out)["level"@]
        matches JVal::Str(v) && v@ == spec_level_name(uint_val(m["level"@]))))
    &&& (!m.contains_key("level"@) ==> !rmap(out).contains_key("level"@))
    &&& (m.contains_key("msg"@) ==> rmap(out).contains_key("message"@) && rmap(out)["message"@]
        == m["msg"@])
    &&& (!m.contains_key("msg"@) ==> (rmap(out).contains_key("message"@) == m.contains_key(
        "message"@,
    )) && (m.contains_key("message"@) ==> rmap(out)["message"@] == m["message"@]))
    &&& forall|k: Seq<char>|
        (k != "time"@ && k != "msg"@ && k != "@timestamp"@ && k != "level"@ && k != "message"@)
            ==> ((#[trigger] rmap(out).contains_key(k)) == m.contains_key(k) && (m.contains_key(
            k,
        ) ==> rmap(out)[k] == m[k]))
}

/// Normalizes a decoded record into the canonical event shape; `now` is the
/// timestamp to stamp records that carry no `time` field with.
///
/// A `time` value is copied verbatim to `@timestamp`; a numeric `level` is
/// replaced by its name; a `msg` value is moved to `message`; every other
/// field passes through unchanged.
pub fn transform(rec: Record, now: &str) -> (res: Result<Record, TransformError>)
    requires
        rec.wf(),
        is_ts_shape(now@),
    ensures
        ({
            let m = rmap(rec);
            match res {
                Ok(out) => level_ok(m) && transform_rel(m, now@, out),
                Err(e) => e == TransformError::LevelNotUnsigned && !level_ok(m),
            }
        }),
{
    proof {
        reveal_strlit("time");
        reveal_strlit("@timestamp");
        reveal_strlit("level");
        reveal_strlit("msg");
        reveal_strlit("message");
        assert("time"@.len() == 4);
        assert("@timestamp"@.len() == 10);
        assert("level"@.len() == 5);
        assert("msg"@.len() == 3);
        assert("message"@.len() == 7);
    }
    let mut rec = rec;
    let time_key = str_to_chars("time");
    let ts_key = str_to_chars("@timestamp");
    match rec.remove(&time_key) {
        Some(v) => {
            rec.insert(ts_key, v);
        },
        None => {
            rec.insert(ts_key, JVal::Str(str_to_chars(now)));
        },
    }
    let level_key = str_to_chars("level");
    let level_num = match rec.get(&level_key) {
        Some(v) => {
            match v {
                JVal::Num { neg, mag } => {
                    if *neg {
                        return Err(TransformError::LevelNotUnsigned);
                    }
                    Some(*mag)
                },
                _ => {
                    return Err(TransformError::LevelNotUnsigned);
                },
            }
        },
        None => None,
    };
    match level_num {
        Some(n) => {
            let name = int_to_level(n);
            rec.insert(level_key, JVal::Str(str_to_chars(name.as_str())));
        },
        None => {},
    }
    let msg_key = str_to_chars("msg");
    match rec.remove(&msg_key) {
        Some(v) => {
            rec.insert(str_to_chars("message"), v);
        },
        None => {},
    }
    Ok(rec)
}

/// The first ten characters of the timestamp (its date portion) with `-`
/// replaced by `.`, prefixed with `logstash-`.
pub open spec fn spec_index_name(ts: Seq<char>) -> Seq<char> {
    "logstash-"@ + Seq::new(10, |i: int| if ts[i] == '-' { '.' } else { ts[i] })
}

/// Derives the day-partitioned index name from a timestamp string, e.g.
/// `logstash-2015.05.21`; the caller guards that the string has at least the
/// ten-character date portion.
pub fn time_to_index_name(full_timestamp: &str) -> (r: String)
    requires
        full_timestamp@.len() >= 10,
    ensures
        r@ == spec_index_name(full_timestamp@),
{
    let ts = str_to_chars(full_timestamp);
    let mut out = str_to_chars("logstash-");
    let mut i: usize = 0;
    while i < 10
        invariant
            ts@ == full_timestamp@,
            ts@.len() >= 10,
            i <= 10,
            out@ == "logstash-"@ + Seq::new(i as nat, |j: int| if ts@[j] == '-' {
                '.'
            } else {
                ts@[j]
            }),
        decreases 10 - i,
    {
        let c = ts[i];
        if c == '-' {
            out.push('.');
        } else {
            out.push(c);
        }
        proof {
            assert(out@ =~= "logstash-"@ + Seq::new((i + 1) as nat, |j: int| if ts@[j] == '-' {
                '.'
            } else {
                ts@[j]
            }));
        }
        i = i + 1;
    }
    proof {
        assert(out@ =~= spec_index_name(full_timestamp@));
    }
    chars_to_string(&out)
}

} // verus!
