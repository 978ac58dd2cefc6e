//! The structured form of a log record: a dynamically typed value and a
//! mapping from field name to value.
//!
//! A record holds its fields sorted strictly by key, so every record has one
//! canonical wire form and lookups are first-match equals only-match.

use vstd::prelude::*;

verus! {

/// A dynamically typed value of a decoded log record: null, boolean,
/// integer, string, array, or nested object.
#[derive(Debug)]
pub enum JVal {
    Null,
    Bool(bool),
    /// An integer; `neg` marks a negative value, `mag` is its magnitude.
    Num { neg: bool, mag: u64 },
    /// Any other number — fractional, with an exponent, or beyond 64 bits —
    /// kept as its exact wire text.
    NumText(Vec<char>),
    Str(Vec<char>),
    Arr(Vec<JVal>),
    Obj(Record),
}

/// One named field of a record.
#[derive(Debug)]
pub struct RecordField {
    pub key: Vec<char>,
    pub val: JVal,
}

/// A decoded log record: a mapping from field name to value, held as a
/// vector of fields sorted strictly by key.
#[derive(Debug)]
pub struct Record {
    pub fields: Vec<RecordField>,
}

/// Strict lexicographic order on field names, comparing characters as
/// code points.
pub open spec fn lex_lt(a: Seq<char>, b: Seq<char>) -> bool
    decreases a.len(), b.len(),
{
    if b.len() == 0 {
        false
    } else if a.len() == 0 {
        true
    } else if a[0] != b[0] {
        a[0] < b[0]
    } else {
        lex_lt(a.drop_first(), b.drop_first())
    }
}

pub proof fn lemma_lex_lt_irrefl(a: Seq<char>)
    ensures
        !lex_lt(a, a),
    decreases a.len(),
{
    if a.len() > 0 {
        lemma_lex_lt_irrefl(a.drop_first());
    }
}

pub proof fn lemma_lex_lt_trichotomy(a: Seq<char>, b: Seq<char>)
    ensures
        lex_lt(a, b) || lex_lt(b, a) || a == b,
    decreases a.len(), b.len(),
{
    if a.len() == 0 && b.len() == 0 {
        assert(a =~= b);
    } else if a.len() > 0 && b.len() > 0 && a[0] == b[0] {
        lemma_lex_lt_trichotomy(a.drop_first(), b.drop_first());
        if a.drop_first() == b.drop_first() {
            assert forall|i: int| 0 <= i < a.len() implies a[i] == b[i] by {
                if i > 0 {
                    assert(a[i] == a.drop_first()[i - 1]);
                    assert(b[i] == b.drop_first()[i - 1]);
                }
            }
            assert(a =~= b);
        }
    }
}

pub proof fn lemma_lex_lt_trans(a: Seq<char>, b: Seq<char>, c: Seq<char>)
    requires
        lex_lt(a, b),
        lex_lt(b, c),
    ensures
        lex_lt(a, c),
    decreases a.len(), b.len(), c.len(),
{
    if a.len() > 0 && b.len() > 0 && c.len() > 0 && a[0] == b[0] && b[0] == c[0] {
        lemma_lex_lt_trans(a.drop_first(), b.drop_first(), c.drop_first());
    }
}

/// Compares two field names in strict lexicographic order.
pub fn key_lt(a: &Vec<char>, b: &Vec<char>) -> (r: bool)
    ensures
        r == lex_lt(a@, b@),
{
    let mut i: usize = 0;
    proof {
        assert(a@.skip(0) =~= a@);
        assert(b@.skip(0) =~= b@);
    }
    loop
        invariant
            i <= a@.len(),
            i <= b@.len(),
            lex_lt(a@, b@) == lex_lt(a@.skip(i as int), b@.skip(i as int)),
        decreases a@.len() - i,
    {
        if i >= b.len() {
            return false;
        }
        if i >= a.len() {
            return true;
        }
        let ca = a[i];
        let cb = b[i];
        if ca != cb {
            return ca < cb;
        }
        proof {
            assert(a@.skip(i as int).drop_first() =~= a@.skip(i + 1));
            assert(b@.skip(i as int).drop_first() =~= b@.skip(i + 1));
        }
        i = i + 1;
    }
}

/// Compares two field names for equality.
pub fn key_eq(a: &Vec<char>, b: &Vec<char>) -> (r: bool)
    ensures
        r == (a@ == b@),
{
    if a.len() != b.len() {
        return false;
    }
    let mut i: usize = 0;
    while i < a.len()
        invariant
            a@.len() == b@.len(),
            i <= a@.len(),
            forall|j: int| 0 <= j < i ==> a@[j] == b@[j],
        decreases a@.len() - i,
    {
        if a[i] != b[i] {
            return false;
        }
        i = i + 1;
    }
    proof {
        assert(a@ =~= b@);
    }
    true
}

/// The value stored under `k` in a field sequence, at the first match.
pub open spec fn seq_get(fs: Seq<RecordField>, k: Seq<char>) -> Option<JVal>
    decreases fs.len(),
{
    if fs.len() == 0 {
        None
    } else if fs[0].key@ == k {
        Some(fs[0].val)
    } else {
        seq_get(fs.drop_first(), k)
    }
}

/// A record as the mapping it denotes.
pub open spec fn rmap(r: Record) -> Map<Seq<char>, JVal> {
    Map::new(
        |k: Seq<char>| seq_get(r.fields@, k) is Some,
        |k: Seq<char>| seq_get(r.fields@, k)->Some_0,
    )
}

/// Looking a key up in a concatenation finds it in the front part first.
pub proof fn lemma_seq_get_concat(a: Seq<RecordField>, b: Seq<RecordField>, k: Seq<char>)
    ensures
        seq_get(a + b, k) == if seq_get(a, k) is Some {
            seq_get(a, k)
        } else {
            seq_get(b, k)
        },
    decreases a.len(),
{
    if a.len() == 0 {
        assert(a + b =~= b);
    } else {
        assert((a + b).drop_first() =~= a.drop_first() + b);
        lemma_seq_get_concat(a.drop_first(), b, k);
    }
}

/// A sequence in which no field is named `k` has no value under `k`.
pub proof fn lemma_seq_get_none(fs: Seq<RecordField>, k: Seq<char>)
    requires
        forall|i: int| 0 <= i < fs.len() ==> fs[i].key@ != k,
    ensures
        seq_get(fs, k) is None,
    decreases fs.len(),
{
    if fs.len() > 0 {
        lemma_seq_get_none(fs.drop_first(), k);
    }
}

/// The value a one-field sequence holds.
pub proof fn lemma_seq_get_single(f: RecordField, k: Seq<char>)
    ensures
        seq_get(seq![f], k) == if f.key@ == k {
            Some(f.val)
        } else {
            None::<JVal>
        },
{
    reveal_with_fuel(seq_get, 2);
    assert(seq![f].drop_first() =~= Seq::<RecordField>::empty());
}

impl Record {
    /// Keys are strictly sorted, so every key occurs at most once.
    pub open spec fn wf(self) -> bool {
        forall|i: int, j: int|
            0 <= i < j < self.fields@.len() ==> lex_lt(
                self.fields@[i].key@,
                self.fields@[j].key@,
            )
    }

    /// An empty record.
    pub fn new() -> (r: Record)
        ensures
            r.wf(),
            rmap(r) == Map::<Seq<char>, JVal>::empty(),
    {
        let r = Record { fields: Vec::new() };
        proof {
            assert(rmap(r) =~= Map::<Seq<char>, JVal>::empty());
        }
        r
    }

    /// The value stored under `key`, if any.
    pub fn get(&self, key: &Vec<char>) -> (r: Option<&JVal>)
        ensures
            match r {
                Some(v) => rmap(*self).contains_key(key@) && *v == rmap(*self)[key@],
                None => !rmap(*self).contains_key(key@),
            },
    {
        let mut i: usize = 0;
        proof {
            assert(self.fields@.skip(0) =~= self.fields@);
        }
        while i < self.fields.len()
            invariant
                i <= self.fields@.len(),
                forall|j: int| 0 <= j < i ==> self.fields@[j].key@ != key@,
                seq_get(self.fields@, key@) == seq_get(self.fields@.skip(i as int), key@),
            decreases self.fields@.len() - i,
        {
            if key_eq(&self.fields[i].key, key) {
                return Some(&self.fields[i].val);
            }
            proof {
                assert(self.fields@.skip(i as int).drop_first() =~= self.fields@.skip(i + 1));
            }
            i = i + 1;
        }
        None
    }

    /// Whether the record has a field named `key`.
    pub fn contains_key(&self, key: &Vec<char>) -> (r: bool)
        ensures
            r == rmap(*self).contains_key(key@),
    {
        self.get(key).is_some()
    }

    /// Stores `val` under `key`, replacing any earlier value; a key above
    /// every present key appends its field.
    pub fn insert(&mut self, key: Vec<char>, val: JVal)
        requires
            old(self).wf(),
        ensures
            final(self).wf(),
            rmap(*final(self)) == rmap(*old(self)).insert(key@, val),
            (forall|i: int|
                0 <= i < old(self).fields@.len() ==> lex_lt(
                    (#[trigger] old(self).fields@[i]).key@,
                    key@,
                )) ==> final(self).fields@ == old(self).fields@.push(
                RecordField { key, val },
            ),
    {
        let ghost olds = self.fields@;
        let mut p: usize = 0;
        while p < self.fields.len() && key_lt(&self.fields[p].key, &key)
            invariant
                p <= self.fields@.len(),
                self.fields@ == olds,
                forall|j: int| 0 <= j < p ==> lex_lt(olds[j].key@, key@),
            decreases self.fields@.len() - p,
        {
            p = p + 1;
        }
        let replacing = p < self.fields.len() && key_eq(&self.fields[p].key, &key);
        let f = RecordField { key, val };
        if replacing {
            self.fields.remove(p);
        }
        self.fields.insert(p, f);
        proof {
            let ghost news = self.fields@;
            let a = olds.subrange(0, p as int);
            let tail_old = if replacing {
                olds.skip(p + 1)
            } else {
                olds.skip(p as int)
            };
            assert(news =~= a + (seq![f] + tail_old));
            assert(olds =~= if replacing {
                a + (seq![olds[p as int]] + tail_old)
            } else {
                a + tail_old
            });
            // The keys before the insertion point stay below `key`, the keys
            // after it stay above it.
            assert forall|j: int| 0 <= j < tail_old.len() implies lex_lt(
                f.key@,
                tail_old[j].key@,
            ) by {
                if replacing {
                    assert(tail_old[j] == olds[p + 1 + j]);
                    assert(lex_lt(olds[p as int].key@, olds[p + 1 + j].key@));
                } else {
                    assert(tail_old[j] == olds[p + j]);
                    lemma_lex_lt_trichotomy(f.key@, olds[p as int].key@);
                    lemma_lex_lt_irrefl(f.key@);
                    if j > 0 {
                        assert(lex_lt(olds[p as int].key@, olds[p + j].key@));
                        lemma_lex_lt_trans(f.key@, olds[p as int].key@, olds[p + j].key@);
                    }
                }
            }
            assert forall|i: int, j: int|
                0 <= i < j < news.len() implies lex_lt(news[i].key@, news[j].key@) by {
                if i < p && j < p {
                    assert(news[i] == olds[i] && news[j] == olds[j]);
                } else if i < p && j == p {
                    assert(news[i] == olds[i]);
                } else if i < p && j > p {
                    assert(news[i] == olds[i] && news[j] == tail_old[j - p - 1]);
                    lemma_lex_lt_trans(news[i].key@, f.key@, news[j].key@);
                } else if i == p {
                    assert(news[j] == tail_old[j - p - 1]);
                } else {
                    assert(news[i] == tail_old[i - p - 1] && news[j] == tail_old[j - p - 1]);
                    if replacing {
                        assert(news[i] == olds[p + (i - p)] && news[j] == olds[p + (j - p)]);
                    } else {
                        assert(news[i] == olds[p + (i - p - 1)] && news[j] == olds[p + (j - p - 1)]);
                    }
                }
            }
            // Pointwise, the new record is the old mapping with `key` bound.
            assert forall|k: Seq<char>| true implies #[trigger] seq_get(news, k) == if k == f.key@ {
                Some(f.val)
            } else {
                seq_get(olds, k)
            } by {
                lemma_seq_get_concat(a, seq![f] + tail_old, k);
                lemma_seq_get_concat(seq![f], tail_old, k);
                lemma_seq_get_single(f, k);
                if replacing {
                    lemma_seq_get_concat(a, seq![olds[p as int]] + tail_old, k);
                    lemma_seq_get_concat(seq![olds[p as int]], tail_old, k);
                    lemma_seq_get_single(olds[p as int], k);
                } else {
                    lemma_seq_get_concat(a, tail_old, k);
                }
                if k == f.key@ {
                    assert forall|i: int| 0 <= i < a.len() implies a[i].key@ != k by {
                        lemma_lex_lt_irrefl(k);
                    }
                    lemma_seq_get_none(a, k);
                }
            }
            assert(rmap(*self) =~= rmap(*old(self)).insert(f.key@, f.val));
        }
    }

    /// Removes the field named `key` and returns its value, if any.
    pub fn remove(&mut self, key: &Vec<char>) -> (r: Option<JVal>)
        requires
            old(self).wf(),
        ensures
            final(self).wf(),
            rmap(*final(self)) == rmap(*old(self)).remove(key@),
            r == if rmap(*old(self)).contains_key(key@) {
                Some(rmap(*old(self))[key@])
            } else {
                None::<JVal>
            },
    {
        let ghost olds = self.fields@;
        let found = self.find_idx(key);
        match found {
            None => {
                proof {
                    lemma_seq_get_none(olds, key@);
                    assert(rmap(*self) =~= rmap(*old(self)).remove(key@));
                }
                None
            },
            Some(p) => {
                let f = self.fields.remove(p);
                proof {
                    let news = self.fields@;
                    let a = olds.subrange(0, p as int);
                    let tail = olds.skip(p + 1);
                    assert(news =~= a + tail);
                    assert(olds =~= a + (seq![olds[p as int]] + tail));
                    assert forall|i: int, j: int|
                        0 <= i < j < news.len() implies lex_lt(news[i].key@, news[j].key@) by {
                        assert(news[i] == if i < p { olds[i] } else { olds[i + 1] });
                        assert(news[j] == if j < p { olds[j] } else { olds[j + 1] });
                    }
                    assert forall|k: Seq<char>| true implies #[trigger] seq_get(news, k)
                        == if k == key@ { None::<JVal> } else { seq_get(olds, k) } by {
                        lemma_seq_get_concat(a, tail, k);
                        lemma_seq_get_concat(a, seq![olds[p as int]] + tail, k);
                        lemma_seq_get_concat(seq![olds[p as int]], tail, k);
                        lemma_seq_get_single(olds[p as int], k);
                        if k == key@ {
                            lemma_seq_get_none(a, k);
                            assert forall|i: int| 0 <= i < tail.len() implies tail[i].key@ != k by {
                                assert(tail[i] == olds[p + 1 + i]);
                                assert(lex_lt(olds[p as int].key@, olds[p + 1 + i].key@));
                                lemma_lex_lt_irrefl(k);
                            }
                            lemma_seq_get_none(tail, k);
                        }
                    }
                    assert(rmap(*self) =~= rmap(*old(self)).remove(key@));
                    lemma_seq_get_concat(a, seq![olds[p as int]] + tail, key@);
                    lemma_seq_get_concat(seq![olds[p as int]], tail, key@);
                    lemma_seq_get_single(olds[p as int], key@);
                    lemma_seq_get_none(a, key@);
                    assert(seq_get(olds, key@) == Some(f.val));
                }
                Some(f.val)
            },
        }
    }

    /// The position of the field named `key`, if any.
    fn find_idx(&self, key: &Vec<char>) -> (r: Option<usize>)
        ensures
            match r {
                Some(i) => i < self.fields@.len() && self.fields@[i as int].key@ == key@
                    && forall|j: int| 0 <= j < i ==> self.fields@[j].key@ != key@,
                None => forall|j: int| 0 <= j < self.fields@.len()
                    ==> self.fields@[j].key@ != key@,
            },
    {
        let mut i: usize = 0;
        while i < self.fields.len()
            invariant
                i <= self.fields@.len(),
                forall|j: int| 0 <= j < i ==> self.fields@[j].key@ != key@,
            decreases self.fields@.len() - i,
        {
            if key_eq(&self.fields[i].key, key) {
                return Some(i);
            }
            i = i + 1;
        }
        None
    }
}

} // verus!
