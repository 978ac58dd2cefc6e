//! The random test-data generator: an input processor that emits one line of
//! generated field values per tick, tab-separated.

use vstd::prelude::*;

use crate::codec::chars_to_string;
use crate::codec::dec_digits;
use crate::codec::str_to_chars;
use crate::codec::write_u64;
use crate::config::absent;
use crate::config::cfg_get;
use crate::config::lemma_spec_missing_names;
use crate::config::spec_missing;
use crate::config::spec_missing_names;
use crate::config::Config;
use crate::config::ConfigError;
use crate::json::key_eq;
use crate::processor::ConfigurableFilter;

use rand::Rng;

verus! {

/// The position of the first `c` in `s`, if any.
pub open spec fn find_char(s: Seq<char>, c: char) -> Option<int>
    decreases s.len(),
{
    if s.len() == 0 {
        None
    } else if s[0] == c {
        Some(0int)
    } else {
        match find_char(s.drop_first(), c) {
            None => None,
            Some(i) => Some(i + 1),
        }
    }
}

/// A scan that saw no `c` before `p`, and `c` at `p` unless it ran off the
/// end, found the first `c`.
pub proof fn lemma_find_char_scan(s: Seq<char>, c: char, p: int)
    requires
        0 <= p <= s.len(),
        forall|j: int| 0 <= j < p ==> s[j] != c,
        p < s.len() ==> s[p] == c,
    ensures
        find_char(s, c) == if p < s.len() {
            Some(p)
        } else {
            None::<int>
        },
    decreases s.len(),
{
    if s.len() > 0 && s[0] != c {
        assert forall|j: int| 0 <= j < p - 1 implies s.drop_first()[j] != c by {
            assert(s.drop_first()[j] == s[j + 1]);
        }
        lemma_find_char_scan(s.drop_first(), c, if p > 0 { p - 1 } else { 0 });
    }
}

/// The parts of `s` between occurrences of `c`.
pub open spec fn split_on(s: Seq<char>, c: char) -> Seq<Seq<char>>
    decreases s.len(),
{
    match find_char(s, c) {
        None => seq![s],
        Some(i) => if 0 <= i < s.len() {
            seq![s.take(i)] + split_on(s.skip(i + 1), c)
        } else {
            seq![s]
        },
    }
}

/// The declared type tag of one `name:type` pair: what stands between the
/// first and second colon, if there is a colon at all.
pub open spec fn type_tag(seg: Seq<char>) -> Option<Seq<char>> {
    match find_char(seg, ':') {
        None => None,
        Some(i) => {
            let rest = seg.skip(i + 1);
            match find_char(rest, ':') {
                None => Some(rest),
                Some(j) => Some(rest.take(j)),
            }
        },
    }
}

/// The kinds of generated field values.
#[derive(Clone, Copy, Debug, PartialEq, Eq, Structural)]
pub enum FieldKind {
    /// Ten random alphanumeric characters.
    Text,
    /// A random 32-bit unsigned integer, as decimal text.
    U32,
}

/// The generator one `name:type` pair declares: the `u32` tag names the
/// numeric generator, every other (or missing) tag falls back to text.
pub open spec fn kind_of(seg: Seq<char>) -> FieldKind {
    if type_tag(seg) == Some("u32"@) {
        FieldKind::U32
    } else {
        FieldKind::Text
    }
}

/// The first position of `c` in `v` at or after `from`.
fn find_from(v: &Vec<char>, from: usize, c: char) -> (r: Option<usize>)
    requires
        from <= v@.len(),
    ensures
        match r {
            Some(p) => from <= p < v@.len() && v@[p as int] == c && forall|j: int|
                from <= j < p ==> v@[j] != c,
            None => forall|j: int| from <= j < v@.len() ==> v@[j] != c,
        },
{
    let mut p: usize = from;
    while p < v.len()
        invariant
            from <= p <= v@.len(),
            forall|j: int| from <= j < p ==> v@[j] != c,
        decreases v@.len() - p,
    {
        if v[p] == c {
            return Some(p);
        }
        p = p + 1;
    }
    None
}

/// The generator declared by the pair held in `v[lo..hi]`.
fn typeize_range(v: &Vec<char>, lo: usize, hi: usize) -> (r: FieldKind)
    requires
        lo <= hi <= v@.len(),
    ensures
        r == kind_of(v@.subrange(lo as int, hi as int)),
{
    let ghost seg = v@.subrange(lo as int, hi as int);
    let first = find_from(v, lo, ':');
    let c1 = match first {
        Some(p) if p < hi => p,
        _ => {
            proof {
                assert forall|j: int| 0 <= j < seg.len() implies seg[j] != ':' by {
                    assert(seg[j] == v@[lo + j]);
                }
                lemma_find_char_scan(seg, ':', seg.len() as int);
            }
            return FieldKind::Text;
        },
    };
    proof {
        assert forall|j: int| 0 <= j < c1 - lo implies seg[j] != ':' by {
            assert(seg[j] == v@[lo + j]);
        }
        assert(seg[c1 - lo] == v@[c1 as int]);
        lemma_find_char_scan(seg, ':', c1 - lo);
    }
    let ghost rest = seg.skip(c1 - lo + 1);
    let second = find_from(v, c1 + 1, ':');
    let c2 = match second {
        Some(p) if p < hi => p,
        _ => hi,
    };
    proof {
        assert forall|j: int| 0 <= j < c2 - c1 - 1 implies rest[j] != ':' by {
            assert(rest[j] == v@[c1 + 1 + j]);
        }
        if c2 < hi {
            assert(rest[c2 - c1 - 1] == v@[c2 as int]);
        }
        lemma_find_char_scan(rest, ':', c2 - c1 - 1);
        if c2 < hi {
            assert(type_tag(seg) == Some(rest.take(c2 - c1 - 1)));
        } else {
            assert(type_tag(seg) == Some(rest));
        }
    }
    let mut tag: Vec<char> = Vec::new();
    let mut k: usize = c1 + 1;
    while k < c2
        invariant
            c1 + 1 <= k <= c2 <= v@.len(),
            tag@ == v@.subrange(c1 + 1, k as int),
        decreases c2 - k,
    {
        tag.push(v[k]);
        proof {
            assert(tag@ =~= v@.subrange(c1 + 1, k + 1));
        }
        k = k + 1;
    }
    proof {
        if c2 < hi {
            assert(tag@ =~= rest.take(c2 - c1 - 1));
        } else {
            assert(tag@ =~= rest);
        }
    }
    let u32_tag = str_to_chars("u32");
    if key_eq(&tag, &u32_tag) {
        FieldKind::U32
    } else {
        FieldKind::Text
    }
}

/// The generator declared by one `name:type` pair.
pub fn typeize(f: &str) -> (r: FieldKind)
    ensures
        r == kind_of(f@),
{
    let v = str_to_chars(f);
    proof {
        assert(v@.subrange(0, v@.len() as int) =~= f@);
    }
    typeize_range(&v, 0, v.len())
}

/// The generators declared by a comma-separated `name:type` list, in order.
pub fn parse_fieldlist(fieldlist: &str) -> (r: Vec<FieldKind>)
    ensures
        r@.len() == split_on(fieldlist@, ',').len(),
        forall|k: int|
            0 <= k < r@.len() ==> r@[k] == kind_of(#[trigger] split_on(fieldlist@, ',')[k]),
{
    let v = str_to_chars(fieldlist);
    let mut kinds: Vec<FieldKind> = Vec::new();
    let ghost whole = split_on(fieldlist@, ',');
    let ghost mut gdone: Seq<Seq<char>> = seq![];
    let mut start: usize = 0;
    proof {
        assert(v@.skip(0) =~= v@);
        assert(gdone + split_on(v@.skip(0), ',') =~= whole);
    }
    loop
        invariant
            start <= v@.len(),
            v@ == fieldlist@,
            whole == split_on(fieldlist@, ','),
            kinds@.len() == gdone.len(),
            gdone + split_on(v@.skip(start as int), ',') == whole,
            forall|k: int| 0 <= k < kinds@.len() ==> kinds@[k] == kind_of(#[trigger] gdone[k]),
        decreases v@.len() - start,
    {
        let next = find_from(&v, start, ',');
        let end = match next {
            Some(p) => p,
            None => v.len(),
        };
        proof {
            let tail = v@.skip(start as int);
            assert forall|j: int| 0 <= j < end - start implies tail[j] != ',' by {
                assert(tail[j] == v@[start + j]);
            }
            if end < v@.len() {
                assert(tail[end - start] == v@[end as int]);
            }
            lemma_find_char_scan(tail, ',', end - start);
        }
        let kind = typeize_range(&v, start, end);
        kinds.push(kind);
        if end >= v.len() {
            proof {
                let tail = v@.skip(start as int);
                assert(tail =~= v@.subrange(start as int, end as int));
                let before = gdone;
                gdone = gdone.push(tail);
                assert(gdone =~= whole);
                assert forall|k: int| 0 <= k < kinds@.len() implies kinds@[k] == kind_of(
                    #[trigger] gdone[k],
                ) by {
                    if k < kinds@.len() - 1 {
                        assert(gdone[k] == before[k]);
                    } else {
                        assert(gdone[k] == tail);
                    }
                }
            }
            return kinds;
        }
        proof {
            let tail = v@.skip(start as int);
            let seg = tail.take(end - start);
            assert(seg =~= v@.subrange(start as int, end as int));
            assert(tail.skip(end - start + 1) =~= v@.skip(end + 1));
            let before = gdone;
            gdone = gdone.push(seg);
            assert(gdone + split_on(v@.skip(end + 1), ',') =~= whole);
            assert forall|k: int| 0 <= k < kinds@.len() implies kinds@[k] == kind_of(
                #[trigger] gdone[k],
            ) by {
                if k < kinds@.len() - 1 {
                    assert(gdone[k] == before[k]);
                } else {
                    assert(gdone[k] == seg);
                }
            }
        }
        start = end + 1;
    }
}

/// An alphanumeric character: a decimal digit or an ASCII letter.
pub open spec fn is_alnum(c: char) -> bool {
    ||| 48 <= (c as u32) <= 57
    ||| 65 <= (c as u32) <= 90
    ||| 97 <= (c as u32) <= 122
}

/// What a generated value of each kind looks like: ten alphanumeric
/// characters, or the decimal text of a 32-bit unsigned integer.
pub open spec fn part_matches(k: FieldKind, p: Seq<char>) -> bool {
    match k {
        FieldKind::Text => p.len() == 10 && forall|i: int| 0 <= i < p.len() ==> is_alnum(#[trigger] p[i]),
        FieldKind::U32 => exists|n: u32| p == dec_digits(n as nat),
    }
}

/// Field values joined with a tab separator.
pub open spec fn join_tab(parts: Seq<Seq<char>>) -> Seq<char>
    decreases parts.len(),
{
    if parts.len() == 0 {
        seq![]
    } else if parts.len() == 1 {
        parts[0]
    } else {
        parts[0] + seq!['\t'] + join_tab(parts.drop_first())
    }
}

pub proof fn lemma_join_tab_snoc(parts: Seq<Seq<char>>)
    requires
        parts.len() >= 2,
    ensures
        join_tab(parts) == join_tab(parts.drop_last()) + seq!['\t'] + parts.last(),
    decreases parts.len(),
{
    reveal_with_fuel(join_tab, 3);
    if parts.len() == 2 {
        assert(parts.drop_first().len() == 1);
        assert(parts.drop_first()[0] == parts.last());
        assert(parts.drop_last().len() == 1);
        assert(parts.drop_last()[0] == parts[0]);
        assert((parts[0] + seq!['\t']) + parts.last() =~= parts[0] + seq!['\t'] + parts.last());
    } else {
        lemma_join_tab_snoc(parts.drop_first());
        assert(parts.drop_first().drop_last() =~= parts.drop_last().drop_first());
        assert(parts.drop_first().last() == parts.last());
        assert(parts.drop_last()[0] == parts[0]);
        assert(parts.drop_last().len() >= 2);
        assert(parts[0] + seq!['\t'] + ((join_tab(parts.drop_last().drop_first()) + seq!['\t'])
            + parts.last()) =~= ((parts[0] + seq!['\t'] + join_tab(parts.drop_last().drop_first()))
            + seq!['\t']) + parts.last());
    }
}

/// Relies on rand's thread_rng and the Alphanumeric distribution, which
/// samples only the characters a-z, A-Z and 0-9.
#[verifier::external_body]
fn random_text_chars() -> (r: Vec<char>)
    ensures
        r@.len() == 10,
        forall|i: int| 0 <= i < r@.len() ==> is_alnum(#[trigger] r@[i]),
{
    rand::thread_rng().sample_iter(&rand::distributions::Alphanumeric).take(10).map(
        char::from,
    ).collect()
}

/// Relies on rand's thread_rng: some 32-bit unsigned integer; nothing is
/// promised of its value.
#[verifier::external_body]
fn random_u32() -> (r: u32) {
    rand::thread_rng().gen::<u32>()
}

/// Appends the characters of `v` to `out`.
fn append_chars(out: &mut Vec<char>, v: &Vec<char>)
    ensures
        final(out)@ == old(out)@ + v@,
{
    let mut i: usize = 0;
    while i < v.len()
        invariant
            i <= v@.len(),
            out@ == old(out)@ + v@.take(i as int),
        decreases v@.len() - i,
    {
        out.push(v[i]);
        proof {
            assert(out@ =~= old(out)@ + v@.take(i + 1));
        }
        i = i + 1;
    }
    proof {
        assert(old(out)@ + v@.take(v@.len() as int) =~= old(out)@ + v@);
    }
}

/// One generated value of the given kind.
fn generate_value(kind: FieldKind) -> (r: Vec<char>)
    ensures
        part_matches(kind, r@),
{
    match kind {
        FieldKind::Text => random_text_chars(),
        FieldKind::U32 => {
            let n = random_u32();
            let mut out: Vec<char> = Vec::new();
            write_u64(n as u64, &mut out);
            proof {
                assert(out@ =~= dec_digits(n as nat));
            }
            out
        },
    }
}

/// One produced line: a generated value for each declared field, joined with
/// tab separators, in declared order.
pub fn produce_line(fields: &Vec<FieldKind>) -> (line: String)
    ensures
        exists|parts: Seq<Seq<char>>|
            #![auto]
            parts.len() == fields@.len() && (forall|k: int|
                0 <= k < parts.len() ==> part_matches(fields@[k], #[trigger] parts[k])) && line@
                == join_tab(parts),
{
    let mut out: Vec<char> = Vec::new();
    let ghost mut gparts: Seq<Seq<char>> = seq![];
    let mut i: usize = 0;
    while i < fields.len()
        invariant
            i <= fields@.len(),
            gparts.len() == i,
            out@ == join_tab(gparts),
            forall|k: int| 0 <= k < i ==> part_matches(fields@[k], #[trigger] gparts[k]),
        decreases fields@.len() - i,
    {
        if i > 0 {
            out.push('\t');
        }
        let value = generate_value(fields[i]);
        append_chars(&mut out, &value);
        proof {
            let before = gparts;
            gparts = gparts.push(value@);
            assert(gparts.drop_last() =~= before);
            assert(gparts.last() == value@);
            if i == 0 {
                assert(gparts.len() == 1);
                assert(out@ =~= join_tab(gparts));
            } else {
                lemma_join_tab_snoc(gparts);
                assert(out@ =~= join_tab(gparts));
            }
            assert forall|k: int| 0 <= k < i + 1 implies part_matches(
                fields@[k],
                #[trigger] gparts[k],
            ) by {
                if k < i {
                    assert(gparts[k] == before[k]);
                }
            }
        }
        i = i + 1;
    }
    chars_to_string(&out)
}

/// The random-generator input processor.
#[derive(Debug)]
pub struct Random {
    pub name: String,
}

/// What the produce loop of a started random input works from: the declared
/// field generators and the raw `rate` option for the caller's cadence.
#[derive(Debug)]
pub struct RandomPlan {
    pub fields: Vec<FieldKind>,
    pub rate: String,
}

impl Random {
    pub fn new(name: String) -> (r: Random)
        ensures
            r.name@ == name@,
    {
        Random { name }
    }

    /// Validates the configuration and prepares the produce loop: fails
    /// before any line is produced unless `fieldlist` and `rate` are present.
    pub fn start_plan(&self, config: &Option<Config>) -> (r: Result<RandomPlan, ConfigError>)
        ensures
            (r is Ok) <==> (!absent(*config, "fieldlist"@) && !absent(*config, "rate"@)),
            r matches Ok(plan) ==> (*config matches Some(c) && (cfg_get(c.entries@, "fieldlist"@)
                matches Some(fl) && plan.fields@.len() == split_on(fl@, ',').len() && forall|k: int|
                0 <= k < plan.fields@.len() ==> plan.fields@[k] == kind_of(
                    #[trigger] split_on(fl@, ',')[k],
                )) && (cfg_get(c.entries@, "rate"@) matches Some(rt) && plan.rate@ == rt@)),
            r matches Err(e) ==> e.processor@ == self.name@ && e.missing@.len()
                == spec_missing_names(*config, self.spec_mandatory()).len() && forall|j: int|
                0 <= j < e.missing@.len() ==> (#[trigger] e.missing@[j])@ == spec_missing_names(
                    *config,
                    self.spec_mandatory(),
                )[j],
    {
        let mandatory = self.mandatory_fields();
        proof {
            reveal_with_fuel(spec_missing, 3);
            assert(mandatory@.drop_first()[0] == mandatory@[1]);
            assert(mandatory@.drop_first().drop_first() =~= Seq::<&str>::empty());
            lemma_spec_missing_names(*config, mandatory@, self.spec_mandatory());
        }
        match crate::config::requires_fields(self.human_name(), config, &mandatory) {
            Err(e) => Err(e),
            Ok(()) => {
                let c = match config {
                    Some(c) => c,
                    None => vstd::pervasive::unreached(),
                };
                let fl = match c.get_opt("fieldlist") {
                    Some(fl) => fl,
                    None => vstd::pervasive::unreached(),
                };
                let fields = parse_fieldlist(fl.as_str());
                let rate = match c.get_opt("rate") {
                    Some(rt) => rt.clone(),
                    None => vstd::pervasive::unreached(),
                };
                Ok(RandomPlan { fields, rate })
            },
        }
    }
}

impl ConfigurableFilter for Random {
    open spec fn spec_name(&self) -> Seq<char> {
        self.name@
    }

    open spec fn spec_mandatory(&self) -> Seq<Seq<char>> {
        seq!["fieldlist"@, "rate"@]
    }

    fn human_name(&self) -> (r: &str) {
        self.name.as_str()
    }

    fn mandatory_fields(&self) -> (r: Vec<&str>) {
        let mut v: Vec<&str> = Vec::new();
        v.push("fieldlist");
        v.push("rate");
        proof {
            assert(v@[0]@ == self.spec_mandatory()[0]);
            assert(v@[1]@ == self.spec_mandatory()[1]);
        }
        v
    }
}

} // verus!
