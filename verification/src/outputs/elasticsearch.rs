//! The Elasticsearch sink: an output processor that decodes each received
//! line, normalizes it, and prepares one indexing request per record.

use vstd::prelude::*;

use crate::codec::chars_to_string;
use crate::codec::dec_digits;
use crate::codec::parse_record;
use crate::codec::record_to_string;
use crate::codec::ser_record;
use crate::codec::str_to_chars;
use crate::codec::write_u64;
use crate::codec::DecodeError;
use crate::config::absent;
use crate::config::cfg_get;
use crate::config::lemma_spec_missing_names;
use crate::config::spec_missing;
use crate::config::spec_missing_names;
use crate::config::Config;
use crate::config::ConfigError;
use crate::filters::is_digit;
use crate::filters::now_timestamp;
use crate::filters::spec_index_name;
use crate::filters::time_to_index_name;
use crate::filters::is_ts_shape;
use crate::filters::level_ok;
use crate::filters::transform;
use crate::filters::transform_rel;
use crate::filters::TransformError;
use crate::json::rmap;
use crate::json::JVal;
use crate::json::Record;
use crate::processor::ConfigurableFilter;

verus! {

/// The numeric value of one decimal digit character.
pub open spec fn digit_val(c: char) -> nat {
    if is_digit(c) {
        ((c as u32) - 48) as nat
    } else {
        0
    }
}

/// The numeric value of a run of decimal digits.
pub open spec fn digits_val(s: Seq<char>) -> nat
    decreases s.len(),
{
    if s.len() == 0 {
        0
    } else {
        digits_val(s.drop_last()) * 10 + digit_val(s.last())
    }
}

/// A longer run of digits has at least the value of its prefix.
proof fn lemma_digits_val_prefix(s: Seq<char>, k: int)
    requires
        0 <= k <= s.len(),
        forall|i: int| 0 <= i < s.len() ==> is_digit(#[trigger] s[i]),
    ensures
        digits_val(s.take(k)) <= digits_val(s),
    decreases s.len() - k,
{
    if k < s.len() {
        lemma_digits_val_prefix(s, k + 1);
        assert(s.take(k + 1).drop_last() =~= s.take(k));
        assert(s.take(k + 1).last() == s[k]);
        assert(digits_val(s.take(k)) <= digits_val(s.take(k + 1)));
    } else {
        assert(s.take(k) =~= s);
    }
}

/// Reads a decimal port number; fails on an empty string, a non-digit, or a
/// value that does not fit in 32 bits.
pub fn parse_u32(s: &str) -> (r: Option<u32>)
    ensures
        r matches Some(v) ==> s@.len() > 0 && (forall|i: int|
            0 <= i < s@.len() ==> is_digit(#[trigger] s@[i])) && v as nat == digits_val(s@),
        (s@.len() > 0 && (forall|i: int| 0 <= i < s@.len() ==> is_digit(#[trigger] s@[i]))
            && digits_val(s@) <= 0xffff_ffff) ==> r is Some,
{
    let v = str_to_chars(s);
    if v.len() == 0 {
        return None;
    }
    let mut acc: u32 = 0;
    let mut i: usize = 0;
    proof {
        assert(v@.take(0) =~= Seq::<char>::empty());
    }
    while i < v.len()
        invariant
            i <= v@.len(),
            v@ == s@,
            forall|j: int| 0 <= j < i ==> is_digit(#[trigger] v@[j]),
            acc as nat == digits_val(v@.take(i as int)),
        decreases v@.len() - i,
    {
        let c = v[i];
        let n = c as u32;
        if !(48 <= n && n <= 57) {
            return None;
        }
        proof {
            assert(v@.take(i + 1).drop_last() =~= v@.take(i as int));
            assert(v@.take(i + 1).last() == v@[i as int]);
        }
        let grown = match acc.checked_mul(10) {
            Some(m) => m.checked_add(n - 48),
            None => None,
        };
        match grown {
            Some(m) => {
                acc = m;
            },
            None => {
                proof {
                    if forall|j: int| 0 <= j < v@.len() ==> is_digit(#[trigger] v@[j]) {
                        lemma_digits_val_prefix(v@, i + 1);
                    }
                }
                return None;
            },
        }
        i = i + 1;
    }
    proof {
        assert(v@.take(v@.len() as int) =~= v@);
    }
    Some(acc)
}

/// The URL of one indexing request:
/// `http://{destination}:{port}/{index}/doc?op_type=index`.
pub open spec fn spec_url(dest: Seq<char>, port: u32, index: Seq<char>) -> Seq<char> {
    "http://"@ + dest + seq![':'] + dec_digits(port as nat) + seq!['/'] + index
        + "/doc?op_type=index"@
}

/// Builds the indexing URL for one record.
pub fn build_url(destination: &str, port: u32, index: &str) -> (r: String)
    ensures
        r@ == spec_url(destination@, port, index@),
{
    let mut out = str_to_chars("http://");
    append_str(&mut out, destination);
    out.push(':');
    write_u64(port as u64, &mut out);
    out.push('/');
    append_str(&mut out, index);
    append_str(&mut out, "/doc?op_type=index");
    proof {
        assert(out@ =~= spec_url(destination@, port, index@));
    }
    chars_to_string(&out)
}

/// Appends the characters of `s` to `out`.
fn append_str(out: &mut Vec<char>, s: &str)
    ensures
        final(out)@ == old(out)@ + s@,
{
    let v = str_to_chars(s);
    let mut i: usize = 0;
    while i < v.len()
        invariant
            i <= v@.len(),
            v@ == s@,
            out@ == old(out)@ + v@.take(i as int),
        decreases v@.len() - i,
    {
        out.push(v[i]);
        proof {
            assert(out@ =~= old(out)@ + v@.take(i + 1));
        }
        i = i + 1;
    }
    proof {
        assert(old(out)@ + v@.take(v@.len() as int) =~= old(out)@ + s@);
    }
}

/// Why one received line was dropped; no variant stops the worker.
#[derive(Debug)]
pub enum LineError {
    /// The line is not a well-formed record.
    Decode(DecodeError),
    /// The record could not be normalized.
    Transform(TransformError),
    /// The normalized record's `@timestamp` is not a string with at least the
    /// ten-character date portion.
    Timestamp,
}

/// One prepared indexing request.
#[derive(Debug)]
pub struct IndexRequest {
    pub url: String,
    pub body: String,
}

/// A record whose `time` field, if present, is a string with at least the
/// ten-character date portion, so that an index name can be derived.
pub open spec fn time_ok(m: Map<Seq<char>, JVal>) -> bool {
    m.contains_key("time"@) ==> (m["time"@] matches JVal::Str(t) && t@.len() >= 10)
}

/// How a prepared indexing request relates to the record it came from: the
/// body is the wire text of the record's normalized event, the URL names the
/// index derived from that event's `@timestamp`.
pub open spec fn request_for(
    m: Map<Seq<char>, JVal>,
    dest: Seq<char>,
    port: u32,
    req: IndexRequest,
) -> bool {
    &&& level_ok(m)
    &&& time_ok(m)
    &&& exists|out: Record, now: Seq<char>|
        #![auto]
        {
            &&& is_ts_shape(now)
            &&& transform_rel(m, now, out)
            &&& (rmap(out)["@timestamp"@] matches JVal::Str(t) && t@.len() >= 10 && req.body@
                == ser_record(out) && req.url@ == spec_url(dest, port, spec_index_name(t@)))
        }
}

/// Prepares the indexing request for one decoded record: normalize, derive
/// the index name from the event's `@timestamp`, serialize. Succeeds exactly
/// when the record's `level` is unsigned (if present) and its `time` (if
/// present) is a string long enough to carry a date.
pub fn prepare_request(rec: Record, destination: &str, port: u32) -> (r: Result<
    IndexRequest,
    LineError,
>)
    requires
        rec.wf(),
    ensures
        ({
            let m = rmap(rec);
            match r {
                Ok(req) => request_for(m, destination@, port, req),
                Err(e) => match e {
                    LineError::Transform(te) => te == TransformError::LevelNotUnsigned
                        && !level_ok(m),
                    LineError::Timestamp => level_ok(m) && !time_ok(m),
                    LineError::Decode(_) => false,
                },
            }
        }),
{
    let ghost m = rmap(rec);
    let now = now_timestamp();
    let ghost gnow = now@;
    let out = match transform(rec, now.as_str()) {
        Ok(out) => out,
        Err(e) => {
            return Err(LineError::Transform(e));
        },
    };
    let ts_key = str_to_chars("@timestamp");
    let ts = match out.get(&ts_key) {
        Some(JVal::Str(t)) => t,
        _ => {
            return Err(LineError::Timestamp);
        },
    };
    if ts.len() < 10 {
        proof {
            if !m.contains_key("time"@) {
                assert(ts@ == gnow && gnow.len() == 24);
            }
        }
        return Err(LineError::Timestamp);
    }
    let ts_string = chars_to_string(ts);
    let index = time_to_index_name(ts_string.as_str());
    let url = build_url(destination, port, index.as_str());
    let body = record_to_string(&out);
    proof {
        let gts = ts_string@;
        assert(rmap(out).contains_key(ts_key@));
        assert(rmap(out)["@timestamp"@] matches JVal::Str(t) && t@ == gts);
        if m.contains_key("time"@) {
            assert(m["time"@] matches JVal::Str(t) && t@ == gts);
        }
    }
    Ok(IndexRequest { url, body })
}

/// Prepares the indexing request for one received line: decode, then
/// normalize and serialize as `prepare_request` does. A failure concerns
/// this line alone.
pub fn process_line(line: &str, destination: &str, port: u32) -> (r: Result<
    IndexRequest,
    LineError,
>)
    ensures
        r matches Ok(req) ==> exists|rec: Record|
            #![auto]
            rec.wf() && request_for(rmap(rec), destination@, port, req),
        r matches Err(e) ==> match e {
            LineError::Decode(_) => true,
            LineError::Transform(te) => te == TransformError::LevelNotUnsigned && exists|
                rec: Record,
            |
                #![auto]
                rec.wf() && !level_ok(rmap(rec)),
            LineError::Timestamp => exists|rec: Record|
                #![auto]
                rec.wf() && level_ok(rmap(rec)) && !time_ok(rmap(rec)),
        },
{
    let rec = match parse_record(line) {
        Ok(rec) => rec,
        Err(e) => {
            return Err(LineError::Decode(e));
        },
    };
    prepare_request(rec, destination, port)
}

/// The Elasticsearch output processor.
#[derive(Debug)]
pub struct Elasticsearch {
    pub name: String,
}

/// What the consume loop of a started sink works from: where to deliver.
#[derive(Debug)]
pub struct EsPlan {
    pub destination: String,
    pub port: u32,
}

/// Why a sink could not start.
#[derive(Debug)]
pub enum StartError {
    /// A mandatory option is missing.
    Config(ConfigError),
    /// The `port` option is not a number a port can hold.
    BadPort,
}

impl Elasticsearch {
    pub fn new(name: String) -> (r: Elasticsearch)
        ensures
            r.name@ == name@,
    {
        Elasticsearch { name }
    }

    /// Validates the configuration and prepares the consume loop: fails
    /// before any line is consumed unless `destination` and `port` are
    /// present and `port` is decimal digits that fit a 32-bit port value.
    pub fn start_plan(&self, config: &Option<Config>) -> (r: Result<EsPlan, StartError>)
        ensures
            (r is Ok) <==> (*config matches Some(c) && cfg_get(c.entries@, "destination"@) is Some
                && (cfg_get(c.entries@, "port"@) matches Some(p) && p@.len() > 0 && (forall|i: int|
                0 <= i < p@.len() ==> is_digit(#[trigger] p@[i])) && digits_val(p@)
                <= 0xffff_ffff)),
            r matches Ok(plan) ==> (*config matches Some(c) && (cfg_get(c.entries@, "destination"@)
                matches Some(d) && plan.destination@ == d@) && (cfg_get(c.entries@, "port"@)
                matches Some(p) && plan.port as nat == digits_val(p@))),
            r matches Err(e) ==> match e {
                StartError::Config(ce) => (absent(*config, "destination"@) || absent(
                    *config,
                    "port"@,
                )) && ce.processor@ == self.name@ && ce.missing@.len() == spec_missing_names(
                    *config,
                    self.spec_mandatory(),
                ).len() && forall|j: int|
                    0 <= j < ce.missing@.len() ==> (#[trigger] ce.missing@[j])@
                        == spec_missing_names(*config, self.spec_mandatory())[j],
                StartError::BadPort => *config matches Some(c) && cfg_get(c.entries@, "destination"@)
                    is Some && (cfg_get(c.entries@, "port"@) matches Some(p) && !(p@.len() > 0 && (
                forall|i: int| 0 <= i < p@.len() ==> is_digit(#[trigger] p@[i])) && digits_val(p@)
                    <= 0xffff_ffff)),
            },
    {
        let mandatory = self.mandatory_fields();
        proof {
            reveal_with_fuel(spec_missing, 3);
            assert(mandatory@.drop_first()[0] == mandatory@[1]);
            assert(mandatory@.drop_first().drop_first() =~= Seq::<&str>::empty());
            lemma_spec_missing_names(*config, mandatory@, self.spec_mandatory());
        }
        match crate::config::requires_fields(self.human_name(), config, &mandatory) {
            Err(e) => Err(StartError::Config(e)),
            Ok(()) => {
                let c = match config {
                    Some(c) => c,
                    None => vstd::pervasive::unreached(),
                };
                let destination = match c.get_opt("destination") {
                    Some(d) => d.clone(),
                    None => vstd::pervasive::unreached(),
                };
                let port_raw = match c.get_opt("port") {
                    Some(p) => p,
                    None => vstd::pervasive::unreached(),
                };
                match parse_u32(port_raw.as_str()) {
                    Some(port) => Ok(EsPlan { destination, port }),
                    None => Err(StartError::BadPort),
                }
            },
        }
    }
}

impl ConfigurableFilter for Elasticsearch {
    open spec fn spec_name(&self) -> Seq<char> {
        self.name@
    }

    open spec fn spec_mandatory(&self) -> Seq<Seq<char>> {
        seq!["destination"@, "port"@]
    }

    fn human_name(&self) -> (r: &str) {
        self.name.as_str()
    }

    fn mandatory_fields(&self) -> (r: Vec<&str>) {
        let mut v: Vec<&str> = Vec::new();
        v.push("destination");
        v.push("port");
        proof {
            assert(v@[0]@ == self.spec_mandatory()[0]);
            assert(v@[1]@ == self.spec_mandatory()[1]);
        }
        v
    }
}

} // verus!
