//! The per-stream metadata dictionary: a fixed, ordered schema of field
//! names, and for each stream a map from field name to value. Built once at
//! startup; writes against a field outside the schema are rejected at build
//! time, never at poll time. A stream or field with no recorded value reads
//! as the sentinel `"unspecified"`.

use vstd::prelude::*;

verus! {

/// Errors raised while building the dictionary or the metric label schema.
#[derive(Debug, PartialEq, Eq)]
pub enum MetaError {
    /// A value was recorded against a field the schema does not name.
    UnknownField(String),
    /// A metadata file format name that is not recognized.
    UnknownFormat(String),
    /// A schema field that cannot serve as a metric label name.
    InvalidLabelName(String),
    /// A schema field that collides with another label name.
    DuplicateLabelName(String),
}

/// The views of a sequence of strings.
pub open spec fn str_seq(v: Seq<String>) -> Seq<Seq<char>> {
    v.map_values(|s: String| s@)
}

/// The views of a sequence of string pairs.
pub open spec fn pair_views(v: Seq<(String, String)>) -> Seq<(Seq<char>, Seq<char>)> {
    v.map_values(|p: (String, String)| (p.0@, p.1@))
}

/// The views of a sequence of string triples.
pub open spec fn triple_views(v: Seq<(String, String, String)>) -> Seq<
    (Seq<char>, Seq<char>, Seq<char>),
> {
    v.map_values(|t: (String, String, String)| (t.0@, t.1@, t.2@))
}

/// One stream's dictionary rows as (stream, field, value) triples.
pub open spec fn inner_entries_of(stream: Seq<char>, m: Seq<(String, String)>) -> Seq<
    (Seq<char>, Seq<char>, Seq<char>),
>
    decreases m.len(),
{
    if m.len() == 0 {
        Seq::empty()
    } else {
        seq![(stream, m[0].0@, m[0].1@)] + inner_entries_of(stream, m.drop_first())
    }
}

/// The whole dictionary as (stream, field, value) triples, stream by stream.
pub open spec fn entries_of(md: Seq<(String, Vec<(String, String)>)>) -> Seq<
    (Seq<char>, Seq<char>, Seq<char>),
>
    decreases md.len(),
{
    if md.len() == 0 {
        Seq::empty()
    } else {
        inner_entries_of(md[0].0@, md[0].1@) + entries_of(md.drop_first())
    }
}

proof fn lemma_inner_entries_push(stream: Seq<char>, m: Seq<(String, String)>, p: (String, String))
    ensures
        inner_entries_of(stream, m.push(p)) == inner_entries_of(stream, m) + seq![
            (stream, p.0@, p.1@),
        ],
    decreases m.len(),
{
    let pushed = m.push(p);
    if m.len() == 0 {
        assert(pushed.drop_first() =~= Seq::<(String, String)>::empty());
        assert(inner_entries_of(stream, pushed.drop_first()) =~= Seq::<
            (Seq<char>, Seq<char>, Seq<char>),
        >::empty());
        assert(inner_entries_of(stream, pushed) =~= inner_entries_of(stream, m) + seq![
            (stream, p.0@, p.1@),
        ]);
    } else {
        lemma_inner_entries_push(stream, m.drop_first(), p);
        assert(pushed.drop_first() =~= m.drop_first().push(p));
        assert(pushed[0] == m[0]);
        assert(inner_entries_of(stream, pushed) =~= inner_entries_of(stream, m) + seq![
            (stream, p.0@, p.1@),
        ]);
    }
}

proof fn lemma_entries_of_push(
    md: Seq<(String, Vec<(String, String)>)>,
    q: (String, Vec<(String, String)>),
)
    ensures
        entries_of(md.push(q)) == entries_of(md) + inner_entries_of(q.0@, q.1@),
    decreases md.len(),
{
    let pushed = md.push(q);
    if md.len() == 0 {
        assert(pushed.drop_first() =~= Seq::<(String, Vec<(String, String)>)>::empty());
        assert(entries_of(pushed.drop_first()) =~= Seq::<
            (Seq<char>, Seq<char>, Seq<char>),
        >::empty());
        assert(entries_of(pushed) =~= entries_of(md) + inner_entries_of(q.0@, q.1@));
    } else {
        lemma_entries_of_push(md.drop_first(), q);
        assert(pushed.drop_first() =~= md.drop_first().push(q));
        assert(pushed[0] == md[0]);
        assert(entries_of(pushed) =~= entries_of(md) + inner_entries_of(q.0@, q.1@));
    }
}

/// The key views of an association list keyed by strings.
pub open spec fn key_views<T>(entries: Seq<(String, T)>) -> Seq<Seq<char>> {
    entries.map_values(|p: (String, T)| p.0@)
}

/// First-match lookup in an association list keyed by strings.
pub open spec fn lookup_pairs<T>(entries: Seq<(String, T)>, key: Seq<char>) -> Option<T>
    decreases entries.len(),
{
    if entries.len() == 0 {
        None
    } else if entries[0].0@ == key {
        Some(entries[0].1)
    } else {
        lookup_pairs(entries.drop_first(), key)
    }
}

proof fn lemma_lookup_skip<T>(entries: Seq<(String, T)>, key: Seq<char>, i: int)
    requires
        0 <= i <= entries.len(),
        forall|j: int| 0 <= j < i ==> entries[j].0@ != key,
    ensures
        lookup_pairs(entries, key) == lookup_pairs(entries.skip(i), key),
    decreases i,
{
    assert(entries.skip(0) =~= entries);
    if i > 0 {
        lemma_lookup_skip(entries.drop_first(), key, i - 1);
        assert(entries.drop_first().skip(i - 1) =~= entries.skip(i));
    }
}

/// Looking a key up after an in-place update of the entry that is the key's
/// first match: that key now reads the new value, every other key is
/// untouched.
proof fn lemma_lookup_update<T>(entries: Seq<(String, T)>, idx: int, p2: (String, T))
    requires
        0 <= idx < entries.len(),
        p2.0@ == entries[idx].0@,
        forall|j: int| 0 <= j < idx ==> entries[j].0@ != entries[idx].0@,
    ensures
        forall|key: Seq<char>|
            #[trigger] lookup_pairs(entries.update(idx, p2), key) == if key == p2.0@ {
                Some(p2.1)
            } else {
                lookup_pairs(entries, key)
            },
    decreases idx,
{
    let updated = entries.update(idx, p2);
    if idx == 0 {
        assert(updated.drop_first() =~= entries.drop_first());
        assert forall|key: Seq<char>|
            #[trigger] lookup_pairs(updated, key) == if key == p2.0@ {
                Some(p2.1)
            } else {
                lookup_pairs(entries, key)
            } by {
            if key != p2.0@ {
                assert(lookup_pairs(updated, key) == lookup_pairs(updated.drop_first(), key));
            }
        }
    } else {
        lemma_lookup_update(entries.drop_first(), idx - 1, p2);
        assert(updated.drop_first() =~= entries.drop_first().update(idx - 1, p2));
        assert forall|key: Seq<char>|
            #[trigger] lookup_pairs(updated, key) == if key == p2.0@ {
                Some(p2.1)
            } else {
                lookup_pairs(entries, key)
            } by {
            assert(updated[0] == entries[0]);
            if key != entries[0].0@ {
                assert(lookup_pairs(updated, key) == lookup_pairs(updated.drop_first(), key));
                assert(lookup_pairs(entries, key) == lookup_pairs(entries.drop_first(), key));
            }
        }
    }
}

/// Looking a key up after a push: present keys read as before, the pushed key
/// becomes visible only where it was absent.
proof fn lemma_lookup_push<T>(entries: Seq<(String, T)>, p: (String, T))
    ensures
        forall|key: Seq<char>|
            #[trigger] lookup_pairs(entries.push(p), key) == match lookup_pairs(entries, key) {
                Some(v) => Some(v),
                None => if key == p.0@ {
                    Some(p.1)
                } else {
                    None::<T>
                },
            },
    decreases entries.len(),
{
    let pushed = entries.push(p);
    if entries.len() == 0 {
        assert(pushed.drop_first() =~= Seq::<(String, T)>::empty());
        assert forall|key: Seq<char>|
            #[trigger] lookup_pairs(pushed, key) == match lookup_pairs(entries, key) {
                Some(v) => Some(v),
                None => if key == p.0@ {
                    Some(p.1)
                } else {
                    None::<T>
                },
            } by {
            if key != p.0@ {
                assert(lookup_pairs(pushed, key) == lookup_pairs(pushed.drop_first(), key));
            }
        }
    } else {
        lemma_lookup_push(entries.drop_first(), p);
        assert(pushed.drop_first() =~= entries.drop_first().push(p));
        assert forall|key: Seq<char>|
            #[trigger] lookup_pairs(pushed, key) == match lookup_pairs(entries, key) {
                Some(v) => Some(v),
                None => if key == p.0@ {
                    Some(p.1)
                } else {
                    None::<T>
                },
            } by {
            assert(pushed[0] == entries[0]);
            if key != entries[0].0@ {
                assert(lookup_pairs(pushed, key) == lookup_pairs(pushed.drop_first(), key));
                assert(lookup_pairs(entries, key) == lookup_pairs(entries.drop_first(), key));
            }
        }
    }
}

/// Character-by-character string comparison.
pub(crate) fn str_eq(a: &str, b: &str) -> (r: bool)
    ensures
        r == (a@ == b@),
{
    let alen = a.unicode_len();
    let blen = b.unicode_len();
    if alen != blen {
        return false;
    }
    let mut i: usize = 0;
    while i < alen
        invariant
            i <= alen,
            alen == a@.len(),
            alen == b@.len(),
            forall|k: int| 0 <= k < i ==> a@[k] == b@[k],
        decreases alen - i,
    {
        if a.get_char(i) != b.get_char(i) {
            return false;
        }
        i += 1;
    }
    proof {
        assert(a@ =~= b@);
    }
    true
}

/// First-match lookup in an association vector keyed by strings.
fn lookup_vec<'a, T>(entries: &'a Vec<(String, T)>, key: &str) -> (r: Option<&'a T>)
    ensures
        match r {
            Some(v) => lookup_pairs(entries@, key@) == Some(*v),
            None => lookup_pairs(entries@, key@) is None,
        },
{
    let mut i: usize = 0;
    while i < entries.len()
        invariant
            i <= entries@.len(),
            forall|j: int| 0 <= j < i ==> entries@[j].0@ != key@,
        decreases entries@.len() - i,
    {
        if str_eq(entries[i].0.as_str(), key) {
            proof {
                lemma_lookup_skip(entries@, key@, i as int);
                assert(entries@.skip(i as int)[0] == entries@[i as int]);
            }
            return Some(&entries[i].1);
        }
        i += 1;
    }
    proof {
        lemma_lookup_skip(entries@, key@, i as int);
        assert(entries@.skip(i as int) =~= Seq::<(String, T)>::empty());
    }
    None
}

/// The value carried by the last pair bearing `f`, if any.
pub open spec fn last_value_in(vals: Seq<(Seq<char>, Seq<char>)>, f: Seq<char>) -> Option<
    Seq<char>,
>
    decreases vals.len(),
{
    if vals.len() == 0 {
        None
    } else if vals.last().0 == f {
        Some(vals.last().1)
    } else {
        last_value_in(vals.drop_last(), f)
    }
}

/// Index of the first pair whose field the schema of `m` does not name; the
/// length where every field is named.
pub open spec fn first_unknown(m: MetaFile, vals: Seq<(Seq<char>, Seq<char>)>) -> int
    decreases vals.len(),
{
    if vals.len() == 0 {
        0
    } else if !m.has_field(vals[0].0) {
        0
    } else {
        1 + first_unknown(m, vals.drop_first())
    }
}

proof fn lemma_first_unknown_skip(m: MetaFile, vals: Seq<(Seq<char>, Seq<char>)>, i: int)
    requires
        0 <= i <= vals.len(),
        forall|j: int| 0 <= j < i ==> m.has_field(#[trigger] vals[j].0),
    ensures
        first_unknown(m, vals) == i + first_unknown(m, vals.skip(i)),
    decreases i,
{
    assert(vals.skip(0) =~= vals);
    if i > 0 {
        lemma_first_unknown_skip(m, vals.drop_first(), i - 1);
        assert(vals.drop_first().skip(i - 1) =~= vals.skip(i));
    }
}

/// Index of the first entry bearing `key`, if any.
fn find_key_index<T>(entries: &Vec<(String, T)>, key: &str) -> (r: Option<usize>)
    ensures
        match r {
            Some(i) => i < entries@.len() && entries@[i as int].0@ == key@ && (forall|j: int|
                0 <= j < i ==> entries@[j].0@ != key@),
            None => forall|j: int| 0 <= j < entries@.len() ==> entries@[j].0@ != key@,
        },
{
    let mut i: usize = 0;
    while i < entries.len()
        invariant
            i <= entries@.len(),
            forall|j: int| 0 <= j < i ==> entries@[j].0@ != key@,
        decreases entries@.len() - i,
    {
        if str_eq(entries[i].0.as_str(), key) {
            return Some(i);
        }
        i += 1;
    }
    None
}

/// The metadata dictionary.
#[derive(Debug)]
pub struct MetaFile {
    /// Values attached to every exported series rather than to one stream.
    pub global_fields: Option<Vec<(String, String)>>,
    /// The schema: the ordered list of recognized field names.
    pub fields: Vec<String>,
    /// Per stream, the recorded field values, keyed by stream name.
    pub metadata: Vec<(String, Vec<(String, String)>)>,
}

impl MetaFile {
    /// The recorded map for one stream, if any.
    pub open spec fn stream_entry(self, stream: Seq<char>) -> Option<Vec<(String, String)>> {
        lookup_pairs(self.metadata@, stream)
    }

    /// The recorded value of one field of one stream, if any.
    pub open spec fn field_value(self, stream: Seq<char>, field: Seq<char>) -> Option<Seq<char>> {
        match lookup_pairs(self.metadata@, stream) {
            None => None,
            Some(m) => match lookup_pairs(m@, field) {
                None => None,
                Some(v) => Some(v@),
            },
        }
    }

    /// What a label for this stream and field reads: the recorded value, or
    /// the sentinel where the stream or the field is absent.
    pub open spec fn label_value(self, stream: Seq<char>, field: Seq<char>) -> Seq<char> {
        match self.field_value(stream, field) {
            Some(v) => v,
            None => "unspecified"@,
        }
    }

    /// Whether the schema names this field.
    pub open spec fn has_field(self, field: Seq<char>) -> bool {
        str_seq(self.fields@).contains(field)
    }

    /// The full label vector of one stream: application and stream name, then
    /// one value per schema field, in schema order.
    pub open spec fn stream_labels(self, application: Seq<char>, stream: Seq<char>) -> Seq<
        Seq<char>,
    > {
        seq![application, stream] + self.fields@.map_values(
            |f: String| self.label_value(stream, f@),
        )
    }

    /// Get a reference to the schema fields.
    pub fn get_fields(&self) -> (r: &Vec<String>)
        ensures
            r == &self.fields,
    {
        &self.fields
    }

    /// Add a field to the schema.
    pub fn add_field(&mut self, field: &str)
        ensures
            str_seq(final(self).fields@) == str_seq(old(self).fields@).push(field@),
            final(self).metadata == old(self).metadata,
            final(self).global_fields == old(self).global_fields,
    {
        self.fields.push(field.to_owned());
        proof {
            assert(str_seq(self.fields@) =~= str_seq(old(self).fields@).push(field@));
        }
    }

    /// Borrow and add a value to this provider. Fails, leaving the dictionary
    /// unchanged, iff the schema does not name `field`.
    pub fn add_value(&mut self, stream: &str, field: &str, value: &str) -> (r: Result<
        (),
        MetaError,
    >)
        ensures
            final(self).fields == old(self).fields,
            final(self).global_fields == old(self).global_fields,
            r is Ok <==> old(self).has_field(field@),
            r is Err ==> *final(self) == *old(self) && (match r->Err_0 {
                MetaError::UnknownField(f) => f@ == field@,
                _ => false,
            }),
            r is Ok ==> forall|s2: Seq<char>, f2: Seq<char>|
                #[trigger] final(self).field_value(s2, f2) == if s2 == stream@ && f2 == field@ {
                    Some(value@)
                } else {
                    old(self).field_value(s2, f2)
                },
            r is Ok ==> key_views(final(self).metadata@) == (if old(self).stream_entry(stream@)
                is Some {
                key_views(old(self).metadata@)
            } else {
                key_views(old(self).metadata@).push(stream@)
            }),
    {
        if !self.contains_field(field) {
            return Err(MetaError::UnknownField(field.to_owned()));
        }
        let ghost md0 = self.metadata@;
        match find_key_index(&self.metadata, stream) {
            Some(i) => {
                let mut pair = self.metadata.remove(i);
                let ghost inner0 = pair.1@;
                match find_key_index(&pair.1, field) {
                    Some(fi) => {
                        let fpair = pair.1.remove(fi);
                        pair.1.insert(fi, (fpair.0, value.to_owned()));
                        proof {
                            assert(pair.1@ =~= inner0.update(
                                fi as int,
                                (inner0[fi as int].0, pair.1@[fi as int].1),
                            ));
                            lemma_lookup_update(
                                inner0,
                                fi as int,
                                (inner0[fi as int].0, pair.1@[fi as int].1),
                            );
                        }
                    },
                    None => {
                        pair.1.push((field.to_owned(), value.to_owned()));
                        proof {
                            lemma_lookup_skip(inner0, field@, inner0.len() as int);
                            assert(inner0.skip(inner0.len() as int) =~= Seq::<
                                (String, String),
                            >::empty());
                            lemma_lookup_push(inner0, pair.1@.last());
                        }
                    },
                }
                let ghost inner1 = pair.1@;
                self.metadata.insert(i, pair);
                proof {
                    lemma_lookup_skip(md0, stream@, i as int);
                    assert(md0.skip(i as int)[0] == md0[i as int]);
                    assert(lookup_pairs(md0, stream@) == Some(md0[i as int].1));
                    assert(self.metadata@ =~= md0.update(i as int, self.metadata@[i as int]));
                    lemma_lookup_update(md0, i as int, self.metadata@[i as int]);
                    assert(key_views(self.metadata@) =~= key_views(md0));
                    assert forall|s2: Seq<char>, f2: Seq<char>|
                        #[trigger] self.field_value(s2, f2) == if s2 == stream@ && f2 == field@ {
                            Some(value@)
                        } else {
                            old(self).field_value(s2, f2)
                        } by {
                        if s2 == stream@ {
                            assert(lookup_pairs(self.metadata@, s2) is Some);
                            let m2 = lookup_pairs(self.metadata@, s2).unwrap();
                            assert(m2@ == inner1);
                        }
                    }
                }
            },
            None => {
                let mut inner: Vec<(String, String)> = Vec::new();
                inner.push((field.to_owned(), value.to_owned()));
                self.metadata.push((stream.to_owned(), inner));
                proof {
                    lemma_lookup_skip(md0, stream@, md0.len() as int);
                    assert(md0.skip(md0.len() as int) =~= Seq::<
                        (String, Vec<(String, String)>),
                    >::empty());
                    lemma_lookup_push(md0, self.metadata@.last());
                    assert(key_views(self.metadata@) =~= key_views(md0).push(stream@));
                    assert forall|s2: Seq<char>, f2: Seq<char>|
                        #[trigger] self.field_value(s2, f2) == if s2 == stream@ && f2 == field@ {
                            Some(value@)
                        } else {
                            old(self).field_value(s2, f2)
                        } by {
                        if s2 == stream@ {
                            let m2 = lookup_pairs(self.metadata@, s2).unwrap();
                            assert(m2@.len() == 1);
                            assert(lookup_pairs(m2@, f2) == if f2 == field@ {
                                Some(m2@[0].1)
                            } else {
                                lookup_pairs(m2@.drop_first(), f2)
                            });
                            assert(m2@.drop_first() =~= Seq::<(String, String)>::empty());
                        }
                    }
                }
            },
        }
        Ok(())
    }

    /// Add a value to this provider.
    pub fn with_value(self, stream: &str, field: &str, value: &str) -> (r: Result<
        MetaFile,
        MetaError,
    >)
        ensures
            r is Ok <==> self.has_field(field@),
            r is Err ==> (match r->Err_0 {
                MetaError::UnknownField(f) => f@ == field@,
                _ => false,
            }),
            r is Ok ==> ({
                let m = r->Ok_0;
                &&& m.fields == self.fields
                &&& m.global_fields == self.global_fields
                &&& forall|s2: Seq<char>, f2: Seq<char>|
                    #[trigger] m.field_value(s2, f2) == if s2 == stream@ && f2 == field@ {
                        Some(value@)
                    } else {
                        self.field_value(s2, f2)
                    }
            }),
    {
        let mut m = self;
        match m.add_value(stream, field, value) {
            Ok(()) => Ok(m),
            Err(e) => Err(e),
        }
    }

    /// Borrow and add many values to the provider, in order, stopping at the
    /// first value whose field the schema does not name; values added before
    /// the failing one stay.
    pub fn add_value_many(&mut self, stream: &str, values: &Vec<(String, String)>) -> (r: Result<
        (),
        MetaError,
    >)
        ensures
            ({
                let vals = pair_views(values@);
                let k = first_unknown(*old(self), vals);
                &&& final(self).fields == old(self).fields
                &&& final(self).global_fields == old(self).global_fields
                &&& (r is Ok <==> k == vals.len())
                &&& (r is Err ==> (match r->Err_0 {
                    MetaError::UnknownField(f) => 0 <= k < vals.len() && f@ == vals[k].0,
                    _ => false,
                }))
                &&& forall|s2: Seq<char>, f2: Seq<char>|
                    #[trigger] final(self).field_value(s2, f2) == (if s2 == stream@
                        && last_value_in(vals.take(k), f2) is Some {
                        last_value_in(vals.take(k), f2)
                    } else {
                        old(self).field_value(s2, f2)
                    })
            }),
    {
        let ghost vals = pair_views(values@);
        let mut i: usize = 0;
        while i < values.len()
            invariant
                i <= values@.len(),
                vals == pair_views(values@),
                self.fields == old(self).fields,
                self.global_fields == old(self).global_fields,
                forall|j: int| 0 <= j < i ==> old(self).has_field(#[trigger] vals[j].0),
                forall|s2: Seq<char>, f2: Seq<char>|
                    #[trigger] self.field_value(s2, f2) == (if s2 == stream@ && last_value_in(
                        vals.take(i as int),
                        f2,
                    ) is Some {
                        last_value_in(vals.take(i as int), f2)
                    } else {
                        old(self).field_value(s2, f2)
                    }),
            decreases values@.len() - i,
        {
            let ghost pre = *self;
            match self.add_value(stream, values[i].0.as_str(), values[i].1.as_str()) {
                Ok(()) => {},
                Err(e) => {
                    proof {
                        lemma_first_unknown_skip(*old(self), vals, i as int);
                        assert(vals.skip(i as int)[0] == vals[i as int]);
                        assert(!old(self).has_field(vals[i as int].0));
                        assert(first_unknown(*old(self), vals.skip(i as int)) == 0);
                    }
                    return Err(e);
                },
            };
            proof {
                assert(vals.take(i + 1).drop_last() =~= vals.take(i as int));
                assert(vals.take(i + 1).last() == vals[i as int]);
                assert(pre.has_field(vals[i as int].0));
                assert(old(self).has_field(vals[i as int].0));
                assert forall|s2: Seq<char>, f2: Seq<char>|
                    #[trigger] self.field_value(s2, f2) == (if s2 == stream@ && last_value_in(
                        vals.take(i + 1),
                        f2,
                    ) is Some {
                        last_value_in(vals.take(i + 1), f2)
                    } else {
                        old(self).field_value(s2, f2)
                    }) by {
                    assert(self.field_value(s2, f2) == if s2 == stream@ && f2 == vals[i as int].0 {
                        Some(vals[i as int].1)
                    } else {
                        pre.field_value(s2, f2)
                    });
                }
            }
            i += 1;
        }
        proof {
            lemma_first_unknown_skip(*old(self), vals, vals.len() as int);
            assert(vals.skip(vals.len() as int) =~= Seq::<(Seq<char>, Seq<char>)>::empty());
            assert(vals.take(vals.len() as int) =~= vals);
        }
        Ok(())
    }

    /// Whether the schema names this field.
    pub fn contains_field(&self, field: &str) -> (r: bool)
        ensures
            r == self.has_field(field@),
    {
        let mut i: usize = 0;
        while i < self.fields.len()
            invariant
                i <= self.fields@.len(),
                forall|j: int| 0 <= j < i ==> self.fields@[j]@ != field@,
            decreases self.fields@.len() - i,
        {
            if str_eq(self.fields[i].as_str(), field) {
                assert(str_seq(self.fields@)[i as int] == field@);
                return true;
            }
            i += 1;
        }
        proof {
            assert forall|j: int| 0 <= j < str_seq(self.fields@).len() implies str_seq(
                self.fields@,
            )[j] != field@ by {
                assert(str_seq(self.fields@)[j] == self.fields@[j]@);
            }
        }
        false
    }

    /// This method returns the metadata map for the given stream.
    pub fn for_stream(&self, stream: &str) -> (r: Option<&Vec<(String, String)>>)
        ensures
            match r {
                Some(m) => self.stream_entry(stream@) == Some(*m),
                None => self.stream_entry(stream@) is None,
            },
    {
        lookup_vec(&self.metadata, stream)
    }

    /// Get the field-sorted values of a stream's meta: one value per schema
    /// field, in schema order, with the sentinel where none is recorded.
    pub fn get_values_for(&self, stream: &str) -> (r: Vec<String>)
        ensures
            r@.len() == self.fields@.len(),
            forall|i: int|
                0 <= i < r@.len() ==> r@[i]@ == self.label_value(stream@, self.fields@[i]@),
    {
        let mut out: Vec<String> = Vec::new();
        let entry = lookup_vec(&self.metadata, stream);
        let mut i: usize = 0;
        while i < self.fields.len()
            invariant
                i <= self.fields@.len(),
                out@.len() == i,
                forall|k: int| 0 <= k < i ==> out@[k]@ == self.label_value(stream@, self.fields@[k]@),
                match entry {
                    Some(m) => self.stream_entry(stream@) == Some(*m),
                    None => self.stream_entry(stream@) is None,
                },
            decreases self.fields@.len() - i,
        {
            match entry {
                Some(m) => {
                    match lookup_vec(m, self.fields[i].as_str()) {
                        Some(v) => {
                            out.push(v.clone());
                        },
                        None => {
                            out.push("unspecified".to_owned());
                        },
                    }
                },
                None => {
                    out.push("unspecified".to_owned());
                },
            }
            i += 1;
        }
        out
    }

    /// The label vector for one stream of one application: the application
    /// and stream names, then the stream's metadata values in schema order.
    pub fn build_labels(&self, application: &str, stream: &str) -> (r: Vec<String>)
        ensures
            str_seq(r@) == self.stream_labels(application@, stream@),
            r@.len() == 2 + self.fields@.len(),
    {
        let mut out: Vec<String> = Vec::new();
        out.push(application.to_owned());
        out.push(stream.to_owned());
        let mut vals = self.get_values_for(stream);
        out.append(&mut vals);
        proof {
            assert(str_seq(out@) =~= self.stream_labels(application@, stream@));
        }
        out
    }

    /// Return a vector containing all metadata entries, as
    /// (stream, field, value) triples in dictionary order.
    pub fn entries(&self) -> (r: Vec<(String, String, String)>)
        ensures
            triple_views(r@) == entries_of(self.metadata@),
    {
        let mut out: Vec<(String, String, String)> = Vec::new();
        let mut i: usize = 0;
        proof {
            assert(self.metadata@.take(0) =~= Seq::<(String, Vec<(String, String)>)>::empty());
            assert(triple_views(out@) =~= entries_of(self.metadata@.take(0)));
        }
        while i < self.metadata.len()
            invariant
                i <= self.metadata@.len(),
                triple_views(out@) == entries_of(self.metadata@.take(i as int)),
            decreases self.metadata@.len() - i,
        {
            let stream_name = &self.metadata[i].0;
            let inner = &self.metadata[i].1;
            let ghost out_mid = triple_views(out@);
            let mut j: usize = 0;
            proof {
                assert(inner@.take(0) =~= Seq::<(String, String)>::empty());
                assert(triple_views(out@) =~= out_mid + inner_entries_of(
                    stream_name@,
                    inner@.take(0),
                ));
            }
            while j < inner.len()
                invariant
                    j <= inner@.len(),
                    inner == &self.metadata@[i as int].1,
                    stream_name == &self.metadata@[i as int].0,
                    i < self.metadata@.len(),
                    triple_views(out@) == out_mid + inner_entries_of(
                        stream_name@,
                        inner@.take(j as int),
                    ),
                decreases inner@.len() - j,
            {
                let ghost opre = out@;
                out.push((stream_name.clone(), inner[j].0.clone(), inner[j].1.clone()));
                proof {
                    let t = (stream_name@, inner@[j as int].0@, inner@[j as int].1@);
                    let part = inner_entries_of(stream_name@, inner@.take(j as int));
                    lemma_inner_entries_push(
                        stream_name@,
                        inner@.take(j as int),
                        inner@[j as int],
                    );
                    assert(inner@.take(j + 1) =~= inner@.take(j as int).push(inner@[j as int]));
                    assert(inner_entries_of(stream_name@, inner@.take(j + 1)) == part + seq![t]);
                    assert(triple_views(out@) =~= triple_views(opre).push(t));
                    assert(triple_views(opre).push(t) =~= out_mid + (part + seq![t]));
                }
                j += 1;
            }
            proof {
                assert(inner@.take(inner@.len() as int) =~= inner@);
                lemma_entries_of_push(self.metadata@.take(i as int), self.metadata@[i as int]);
                assert(self.metadata@.take(i + 1) =~= self.metadata@.take(i as int).push(
                    self.metadata@[i as int],
                ));
            }
            i += 1;
        }
        proof {
            assert(self.metadata@.take(self.metadata@.len() as int) =~= self.metadata@);
        }
        out
    }

    /// Return a vector containing the names of all known streams.
    pub fn streams(&self) -> (r: Vec<String>)
        ensures
            str_seq(r@) == key_views(self.metadata@),
    {
        let mut out: Vec<String> = Vec::new();
        let mut i: usize = 0;
        while i < self.metadata.len()
            invariant
                i <= self.metadata@.len(),
                out@.len() == i,
                forall|k: int| 0 <= k < i ==> out@[k]@ == self.metadata@[k].0@,
            decreases self.metadata@.len() - i,
        {
            out.push(self.metadata[i].0.clone());
            i += 1;
        }
        proof {
            assert(str_seq(out@) =~= key_views(self.metadata@));
        }
        out
    }
}

/// Whether two characters are equal up to ASCII case.
pub open spec fn chars_eq_ci(x: char, y: char) -> bool {
    ||| x == y
    ||| ('A' <= x && x <= 'Z' && 'a' <= y && y <= 'z' && x as int + 32 == y as int)
    ||| ('a' <= x && x <= 'z' && 'A' <= y && y <= 'Z' && y as int + 32 == x as int)
}

/// Whether two strings are equal up to ASCII case.
pub open spec fn str_eq_ci(a: Seq<char>, b: Seq<char>) -> bool {
    a.len() == b.len() && forall|i: int| 0 <= i < a.len() ==> chars_eq_ci(a[i], b[i])
}

/// Character-by-character comparison up to ASCII case.
fn eq_ignore_case(a: &str, b: &str) -> (r: bool)
    ensures
        r == str_eq_ci(a@, b@),
{
    let alen = a.unicode_len();
    let blen = b.unicode_len();
    if alen != blen {
        return false;
    }
    let mut i: usize = 0;
    while i < alen
        invariant
            i <= alen,
            alen == a@.len(),
            alen == b@.len(),
            forall|k: int| 0 <= k < i ==> chars_eq_ci(a@[k], b@[k]),
        decreases alen - i,
    {
        let x = a.get_char(i);
        let y = b.get_char(i);
        let same = x == y || ('A' <= x && x <= 'Z' && 'a' <= y && y <= 'z' && x as u32 + 32 == y
            as u32) || ('a' <= x && x <= 'z' && 'A' <= y && y <= 'Z' && y as u32 + 32 == x as u32);
        if !same {
            return false;
        }
        i += 1;
    }
    true
}

/// Enum for the supported formats of metadata file.
#[derive(Clone, Copy, Debug, PartialEq, Eq, Structural)]
pub enum Format {
    /// The JSON format.
    Json,
    /// The TOML format.
    Toml,
}

impl Format {
    /// Reads a format name, ignoring ASCII case. Every other name is an
    /// error.
    pub fn from_str(s: &str) -> (r: Result<Format, MetaError>)
        ensures
            r == Ok::<Format, MetaError>(Format::Json) <==> str_eq_ci(s@, "json"@),
            r == Ok::<Format, MetaError>(Format::Toml) <==> str_eq_ci(s@, "toml"@),
            r is Err <==> (!str_eq_ci(s@, "json"@) && !str_eq_ci(s@, "toml"@)),
            r is Err ==> (match r->Err_0 {
                MetaError::UnknownFormat(f) => f@ == s@,
                _ => false,
            }),
    {
        proof {
            reveal_strlit("json");
            reveal_strlit("toml");
        }
        if eq_ignore_case(s, "json") {
            proof {
                assert(chars_eq_ci(s@[0], 'j') && chars_eq_ci(s@[0], 't') ==> false);
            }
            Ok(Format::Json)
        } else if eq_ignore_case(s, "toml") {
            Ok(Format::Toml)
        } else {
            Err(MetaError::UnknownFormat(s.to_owned()))
        }
    }
}

impl Default for MetaFile {
    /// An empty dictionary: no schema fields, no streams.
    fn default() -> (d: Self)
        ensures
            d.global_fields is None,
            d.fields@ == Seq::<String>::empty(),
            d.metadata@ == Seq::<(String, Vec<(String, String)>)>::empty(),
    {
        MetaFile { global_fields: None, fields: Vec::new(), metadata: Vec::new() }
    }
}

} // verus!
