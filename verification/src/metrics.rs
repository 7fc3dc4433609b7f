//! The metric surface: the set of named gauge instruments the translation
//! engine writes into. A labeled family records, per cycle, the series it was
//! given as (label vector, value) writes in write order; a later write to the
//! same label vector overrides an earlier one, which `as_map` captures.
//! The exposition layer outside the library drains `series()` into whatever
//! registry serves the scrape endpoint.

use vstd::prelude::*;

use crate::meta::{entries_of, str_eq, str_seq, triple_views, MetaError, MetaFile};

verus! {

/// One labeled family of integer gauges: every series it holds is keyed by a
/// label vector of the family's fixed arity.
#[derive(Debug)]
pub struct GaugeVec {
    arity: usize,
    series: Vec<(Vec<String>, i64)>,
}

/// The write log folded into a map, later writes overriding earlier ones.
pub open spec fn series_map(s: Seq<(Seq<Seq<char>>, int)>) -> Map<Seq<Seq<char>>, int>
    decreases s.len(),
{
    if s.len() == 0 {
        Map::empty()
    } else {
        series_map(s.drop_last()).insert(s.last().0, s.last().1)
    }
}

/// A key is in the folded map exactly when some write bears it.
pub proof fn lemma_series_map_dom(s: Seq<(Seq<Seq<char>>, int)>)
    ensures
        forall|k: Seq<Seq<char>>|
            #[trigger] series_map(s).contains_key(k) <==> exists|i: int|
                0 <= i < s.len() && (#[trigger] s[i]).0 == k,
    decreases s.len(),
{
    if s.len() > 0 {
        lemma_series_map_dom(s.drop_last());
        assert forall|k: Seq<Seq<char>>| #[trigger]
            series_map(s).contains_key(k) implies exists|i: int|
            0 <= i < s.len() && (#[trigger] s[i]).0 == k by {
            if k == s.last().0 {
                assert(s[s.len() - 1].0 == k);
            } else {
                assert(series_map(s.drop_last()).contains_key(k));
                let i = choose|i: int| 0 <= i < s.drop_last().len() && (#[trigger] s.drop_last()[i]).0 == k;
                assert(s[i].0 == k);
            }
        }
        assert forall|k: Seq<Seq<char>>|
            (exists|i: int| 0 <= i < s.len() && (#[trigger] s[i]).0 == k) implies #[trigger]
            series_map(s).contains_key(k) by {
            let i = choose|i: int| 0 <= i < s.len() && (#[trigger] s[i]).0 == k;
            if i < s.len() - 1 {
                assert(s.drop_last()[i].0 == k);
                assert(series_map(s.drop_last()).contains_key(k));
            }
        }
    }
}

/// The folded map reads the value of the last write bearing a key.
pub proof fn lemma_series_map_last_match(s: Seq<(Seq<Seq<char>>, int)>, i: int)
    requires
        0 <= i < s.len(),
        forall|j: int| i < j < s.len() ==> (#[trigger] s[j]).0 != s[i].0,
    ensures
        series_map(s).contains_key(s[i].0),
        series_map(s)[s[i].0] == s[i].1,
    decreases s.len(),
{
    if i == s.len() - 1 {
    } else {
        assert(s.drop_last()[i] == s[i]);
        lemma_series_map_last_match(s.drop_last(), i);
        assert(s.last().0 != s[i].0);
    }
}

impl View for GaugeVec {
    type V = Seq<(Seq<Seq<char>>, int)>;

    open spec fn view(&self) -> Seq<(Seq<Seq<char>>, int)> {
        self.spec_series().map_values(|p: (Vec<String>, i64)| (str_seq(p.0@), p.1 as int))
    }
}

impl GaugeVec {
    /// The label-vector arity every series of this family carries.
    pub closed spec fn spec_arity(self) -> nat {
        self.arity as nat
    }

    /// The raw write log.
    pub closed spec fn spec_series(self) -> Seq<(Vec<String>, i64)> {
        self.series@
    }

    /// Every recorded label vector has the family's arity.
    pub open spec fn wf(self) -> bool {
        forall|i: int| 0 <= i < self@.len() ==> (#[trigger] self@[i]).0.len() == self.spec_arity()
    }

    /// The family's current series, as a map from label vector to value.
    pub open spec fn as_map(self) -> Map<Seq<Seq<char>>, int> {
        series_map(self@)
    }

    /// An empty family of the given arity.
    pub fn new(arity: usize) -> (g: GaugeVec)
        ensures
            g@ == Seq::<(Seq<Seq<char>>, int)>::empty(),
            g.spec_arity() == arity,
            g.wf(),
    {
        let g = GaugeVec { arity, series: Vec::new() };
        proof {
            assert(g@ =~= Seq::<(Seq<Seq<char>>, int)>::empty());
        }
        g
    }

    /// Clear every series of the family.
    pub fn reset(&mut self)
        ensures
            final(self)@ == Seq::<(Seq<Seq<char>>, int)>::empty(),
            final(self).spec_arity() == old(self).spec_arity(),
            final(self).wf(),
    {
        self.series.clear();
        proof {
            assert(self@ =~= Seq::<(Seq<Seq<char>>, int)>::empty());
        }
    }

    /// Set the series with the given label vector to `value`.
    pub fn set(&mut self, labels: Vec<String>, value: i64)
        requires
            labels@.len() == old(self).spec_arity(),
        ensures
            final(self)@ == old(self)@.push((str_seq(labels@), value as int)),
            final(self).spec_arity() == old(self).spec_arity(),
            old(self).wf() ==> final(self).wf(),
    {
        self.series.push((labels, value));
        proof {
            assert(str_seq(self.spec_series().last().0@).len() == self.spec_series().last().0@.len());
            assert(self@ =~= old(self)@.push((str_seq(self.spec_series().last().0@), value as int)));
        }
    }

    /// The number of series writes the family holds.
    pub fn len(&self) -> (r: usize)
        ensures
            r == self@.len(),
    {
        proof {
            assert(self@.len() == self.spec_series().len());
        }
        self.series.len()
    }

    /// The raw write log: (label vector, value), in write order.
    pub fn series(&self) -> (r: &Vec<(Vec<String>, i64)>)
        ensures
            r@ == self.spec_series(),
    {
        &self.series
    }

    /// Read the value of the series with the given label vector, if one was
    /// written this cycle.
    pub fn get(&self, labels: &Vec<String>) -> (r: Option<i64>)
        ensures
            self.as_map().contains_key(str_seq(labels@)) ==> r is Some && r.unwrap() as int
                == self.as_map()[str_seq(labels@)],
            !self.as_map().contains_key(str_seq(labels@)) ==> r is None,
    {
        let ghost key = str_seq(labels@);
        let mut i: usize = self.series.len();
        proof {
            assert(self@.len() == self.spec_series().len());
        }
        while i > 0
            invariant
                i <= self@.len(),
                self@.len() == self.spec_series().len(),
                key == str_seq(labels@),
                forall|j: int| i <= j < self@.len() ==> (#[trigger] self@[j]).0 != key,
            decreases i,
        {
            i -= 1;
            proof {
                assert(self@[i as int] == (
                    str_seq(self.spec_series()[i as int].0@),
                    self.spec_series()[i as int].1 as int,
                ));
            }
            if labels_eq(&self.series[i].0, labels) {
                proof {
                    assert(self@[i as int].0 == key);
                    lemma_series_map_last_match(self@, i as int);
                }
                return Some(self.series[i].1);
            }
        }
        proof {
            lemma_series_map_dom(self@);
        }
        None
    }
}

/// A character that may open a metric label name.
pub open spec fn spec_label_head(c: char) -> bool {
    ('a' <= c && c <= 'z') || ('A' <= c && c <= 'Z') || c == '_'
}

/// A character that may continue a metric label name.
pub open spec fn spec_label_tail(c: char) -> bool {
    spec_label_head(c) || ('0' <= c && c <= '9')
}

/// A well-formed metric label name: a letter or underscore, then letters,
/// digits and underscores, and not the reserved double-underscore prefix.
pub open spec fn spec_valid_label(s: Seq<char>) -> bool {
    &&& s.len() > 0
    &&& spec_label_head(s[0])
    &&& forall|i: int| 1 <= i < s.len() ==> spec_label_tail(#[trigger] s[i])
    &&& !(s.len() >= 2 && s[0] == '_' && s[1] == '_')
}

fn valid_label(s: &str) -> (r: bool)
    ensures
        r == spec_valid_label(s@),
{
    let len = s.unicode_len();
    if len == 0 {
        return false;
    }
    let c0 = s.get_char(0);
    if !(('a' <= c0 && c0 <= 'z') || ('A' <= c0 && c0 <= 'Z') || c0 == '_') {
        return false;
    }
    if len >= 2 && c0 == '_' && s.get_char(1) == '_' {
        return false;
    }
    let mut i: usize = 1;
    while i < len
        invariant
            1 <= i <= len,
            len == s@.len(),
            forall|k: int| 1 <= k < i ==> spec_label_tail(#[trigger] s@[k]),
        decreases len - i,
    {
        let c = s.get_char(i);
        if !(('a' <= c && c <= 'z') || ('A' <= c && c <= 'Z') || c == '_' || ('0' <= c && c
            <= '9')) {
            return false;
        }
        i += 1;
    }
    true
}

/// A schema whose fields can all serve as metric label names beside the fixed
/// `application` and `stream` labels: each valid, none reserved, no two
/// equal.
pub open spec fn spec_schema_ok(fields: Seq<String>) -> bool {
    &&& forall|i: int| 0 <= i < fields.len() ==> spec_valid_label(#[trigger] fields[i]@)
    &&& forall|i: int|
        0 <= i < fields.len() ==> (#[trigger] fields[i]@) != "application"@ && fields[i]@
            != "stream"@
    &&& forall|i: int, j: int|
        0 <= i < j < fields.len() ==> (#[trigger] fields[i]@) != (#[trigger] fields[j]@)
}

/// The metric surface: every instrument the translation engine writes.
///
/// The labeled per-stream families all share one label-name list,
/// `stream_labels`: `application`, `stream`, then the schema fields in
/// order. The exposition layer registers its instruments from that list and
/// drains each family's `series()` after a cycle.
#[derive(Debug)]
pub struct MetricContext {
    /// Label names of the per-stream families.
    pub stream_labels: Vec<String>,
    pub nginx_build_info: GaugeVec,
    pub nginx_rtmp_application_count: i64,
    pub nginx_rtmp_active_streams: GaugeVec,
    pub nginx_rtmp_incoming_bytes_total: i64,
    pub nginx_rtmp_outgoing_bytes_total: i64,
    pub nginx_rtmp_incoming_bandwidth: i64,
    pub nginx_rtmp_outgoing_bandwidth: i64,
    pub nginx_rtmp_stream_incoming_bytes_total: GaugeVec,
    pub nginx_rtmp_stream_outgoing_bytes_total: GaugeVec,
    pub nginx_rtmp_stream_incoming_bandwidth: GaugeVec,
    pub nginx_rtmp_stream_outgoing_bandwidth: GaugeVec,
    pub nginx_rtmp_stream_bandwidth_video: GaugeVec,
    pub nginx_rtmp_stream_bandwidth_audio: GaugeVec,
    pub nginx_rtmp_stream_publisher_avsync: GaugeVec,
    pub nginx_rtmp_stream_total_clients: GaugeVec,
    pub nginx_rtmp_exporter_metadata_fields: GaugeVec,
    pub nginx_rtmp_exporter_metadata_values: GaugeVec,
}

impl MetricContext {
    /// Arity discipline: every family's label vectors have the family's
    /// arity, and the per-stream families share the arity of
    /// `stream_labels`.
    pub open spec fn wf(self) -> bool {
        &&& self.stream_labels@.len() >= 2
        &&& self.nginx_build_info.spec_arity() == 3 && self.nginx_build_info.wf()
        &&& self.nginx_rtmp_active_streams.spec_arity() == 1 && self.nginx_rtmp_active_streams.wf()
        &&& self.nginx_rtmp_stream_incoming_bytes_total.spec_arity() == self.stream_labels@.len()
            && self.nginx_rtmp_stream_incoming_bytes_total.wf()
        &&& self.nginx_rtmp_stream_outgoing_bytes_total.spec_arity() == self.stream_labels@.len()
            && self.nginx_rtmp_stream_outgoing_bytes_total.wf()
        &&& self.nginx_rtmp_stream_incoming_bandwidth.spec_arity() == self.stream_labels@.len()
            && self.nginx_rtmp_stream_incoming_bandwidth.wf()
        &&& self.nginx_rtmp_stream_outgoing_bandwidth.spec_arity() == self.stream_labels@.len()
            && self.nginx_rtmp_stream_outgoing_bandwidth.wf()
        &&& self.nginx_rtmp_stream_bandwidth_video.spec_arity() == self.stream_labels@.len()
            && self.nginx_rtmp_stream_bandwidth_video.wf()
        &&& self.nginx_rtmp_stream_bandwidth_audio.spec_arity() == self.stream_labels@.len()
            && self.nginx_rtmp_stream_bandwidth_audio.wf()
        &&& self.nginx_rtmp_stream_publisher_avsync.spec_arity() == self.stream_labels@.len()
            && self.nginx_rtmp_stream_publisher_avsync.wf()
        &&& self.nginx_rtmp_stream_total_clients.spec_arity() == self.stream_labels@.len()
            && self.nginx_rtmp_stream_total_clients.wf()
        &&& self.nginx_rtmp_exporter_metadata_fields.spec_arity() == 1
            && self.nginx_rtmp_exporter_metadata_fields.wf()
        &&& self.nginx_rtmp_exporter_metadata_values.spec_arity() == 3
            && self.nginx_rtmp_exporter_metadata_values.wf()
    }

    /// Builds the surface for one dictionary: checks that the schema can
    /// serve as label names, fixes the per-stream label-name list, and sets
    /// the two diagnostic families (one series per schema field; one series
    /// per dictionary entry). Everything else starts empty.
    pub fn from_metadata(metadata: &MetaFile) -> (r: Result<MetricContext, MetaError>)
        ensures
            r is Ok <==> spec_schema_ok(metadata.fields@),
            r is Err ==> (match r->Err_0 {
                MetaError::InvalidLabelName(f) => !spec_valid_label(f@) && (exists|i: int|
                    0 <= i < metadata.fields@.len() && (#[trigger] metadata.fields@[i])@ == f@),
                MetaError::DuplicateLabelName(f) => exists|i: int|
                    0 <= i < metadata.fields@.len() && (#[trigger] metadata.fields@[i])@ == f@ && (
                    f@ == "application"@ || f@ == "stream"@ || exists|j: int|
                        0 <= j < i && (#[trigger] metadata.fields@[j])@ == f@),
                _ => false,
            }),
            r is Ok ==> ({
                let ctx = r->Ok_0;
                &&& ctx.wf()
                &&& ctx.stream_labels@.len() == 2 + metadata.fields@.len()
                &&& str_seq(ctx.stream_labels@) == seq!["application"@, "stream"@] + str_seq(
                    metadata.fields@,
                )
                &&& ctx.nginx_build_info@ == Seq::<(Seq<Seq<char>>, int)>::empty()
                &&& ctx.nginx_rtmp_active_streams@ == Seq::<(Seq<Seq<char>>, int)>::empty()
                &&& ctx.nginx_rtmp_stream_incoming_bytes_total@ == Seq::<
                    (Seq<Seq<char>>, int),
                >::empty()
                &&& ctx.nginx_rtmp_stream_outgoing_bytes_total@ == Seq::<
                    (Seq<Seq<char>>, int),
                >::empty()
                &&& ctx.nginx_rtmp_stream_incoming_bandwidth@ == Seq::<
                    (Seq<Seq<char>>, int),
                >::empty()
                &&& ctx.nginx_rtmp_stream_outgoing_bandwidth@ == Seq::<
                    (Seq<Seq<char>>, int),
                >::empty()
                &&& ctx.nginx_rtmp_stream_bandwidth_video@ == Seq::<(Seq<Seq<char>>, int)>::empty()
                &&& ctx.nginx_rtmp_stream_bandwidth_audio@ == Seq::<(Seq<Seq<char>>, int)>::empty()
                &&& ctx.nginx_rtmp_stream_publisher_avsync@ == Seq::<(Seq<Seq<char>>, int)>::empty()
                &&& ctx.nginx_rtmp_stream_total_clients@ == Seq::<(Seq<Seq<char>>, int)>::empty()
                &&& ctx.nginx_rtmp_application_count == 0
                &&& ctx.nginx_rtmp_incoming_bytes_total == 0
                &&& ctx.nginx_rtmp_outgoing_bytes_total == 0
                &&& ctx.nginx_rtmp_incoming_bandwidth == 0
                &&& ctx.nginx_rtmp_outgoing_bandwidth == 0
                &&& ctx.nginx_rtmp_exporter_metadata_fields@ == metadata.fields@.map_values(
                    |f: String| (seq![f@], 1int),
                )
                &&& ctx.nginx_rtmp_exporter_metadata_values@ == entries_of(
                    metadata.metadata@,
                ).map_values(|t: (Seq<char>, Seq<char>, Seq<char>)| (seq![t.0, t.1, t.2], 1int))
            }),
    {
        // The schema fields become label names: check them as the registry
        // would, before anything is built.
        let nfields = metadata.fields.len();
        let mut i: usize = 0;
        while i < nfields
            invariant
                i <= nfields,
                nfields == metadata.fields@.len(),
                forall|k: int| 0 <= k < i ==> spec_valid_label((#[trigger] metadata.fields@[k])@),
                forall|k: int|
                    0 <= k < i ==> ((#[trigger] metadata.fields@[k])@ != "application"@
                        && metadata.fields@[k]@ != "stream"@),
                forall|k: int, j: int|
                    0 <= j < k < i ==> (#[trigger] metadata.fields@[j])@ != (
                    #[trigger] metadata.fields@[k])@,
            decreases nfields - i,
        {
            let f = &metadata.fields[i];
            if !valid_label(f.as_str()) {
                proof {
                    assert(metadata.fields@[i as int]@ == f@);
                }
                return Err(MetaError::InvalidLabelName(f.clone()));
            }
            if str_eq(f.as_str(), "application") || str_eq(f.as_str(), "stream") {
                proof {
                    assert(metadata.fields@[i as int]@ == f@);
                }
                return Err(MetaError::DuplicateLabelName(f.clone()));
            }
            let mut j: usize = 0;
            while j < i
                invariant
                    j <= i < nfields,
                    nfields == metadata.fields@.len(),
                    f == &metadata.fields@[i as int],
                    forall|k: int|
                        0 <= k < j ==> (#[trigger] metadata.fields@[k])@ != metadata.fields@[
                            i as int
                        ]@,
                decreases i - j,
            {
                if str_eq(metadata.fields[j].as_str(), f.as_str()) {
                    proof {
                        assert(metadata.fields@[i as int]@ == f@);
                        assert(metadata.fields@[j as int]@ == f@);
                    }
                    return Err(MetaError::DuplicateLabelName(f.clone()));
                }
                j += 1;
            }
            i += 1;
        }
        // The per-stream label-name list: application, stream, then the
        // schema in order.
        let mut stream_labels: Vec<String> = Vec::new();
        stream_labels.push("application".to_owned());
        stream_labels.push("stream".to_owned());
        let mut i: usize = 0;
        while i < nfields
            invariant
                i <= nfields,
                nfields == metadata.fields@.len(),
                stream_labels@.len() == 2 + i,
                stream_labels@[0]@ == "application"@,
                stream_labels@[1]@ == "stream"@,
                forall|k: int| 0 <= k < i ==> stream_labels@[k + 2]@ == (
                    #[trigger] metadata.fields@[k])@,
            decreases nfields - i,
        {
            stream_labels.push(metadata.fields[i].clone());
            i += 1;
        }
        proof {
            assert(str_seq(stream_labels@) =~= seq!["application"@, "stream"@] + str_seq(
                metadata.fields@,
            ));
        }
        let arity = stream_labels.len();
        // One diagnostic series per schema field.
        let mut field_metric = GaugeVec::new(1);
        let mut i: usize = 0;
        while i < nfields
            invariant
                i <= nfields,
                nfields == metadata.fields@.len(),
                field_metric@.len() == i,
                field_metric.spec_arity() == 1,
                field_metric.wf(),
                forall|k: int|
                    0 <= k < i ==> field_metric@[k] == (seq![(#[trigger] metadata.fields@[k])@],
                    1int),
            decreases nfields - i,
        {
            let mut lv: Vec<String> = Vec::new();
            lv.push(metadata.fields[i].clone());
            proof {
                assert(str_seq(lv@) =~= seq![metadata.fields@[i as int]@]);
            }
            field_metric.set(lv, 1);
            i += 1;
        }
        proof {
            assert(field_metric@ =~= metadata.fields@.map_values(|f: String| (seq![f@], 1int)));
        }
        // One diagnostic series per dictionary entry.
        let ents = metadata.entries();
        let mut value_metric = GaugeVec::new(3);
        let mut i: usize = 0;
        proof {
            assert(triple_views(ents@).len() == ents@.len());
        }
        while i < ents.len()
            invariant
                i <= ents@.len(),
                triple_views(ents@) == entries_of(metadata.metadata@),
                value_metric@.len() == i,
                value_metric.spec_arity() == 3,
                value_metric.wf(),
                forall|k: int|
                    0 <= k < i ==> value_metric@[k] == (
                    seq![
                        (#[trigger] ents@[k]).0@,
                        ents@[k].1@,
                        ents@[k].2@,
                    ],
                    1int,
                ),
            decreases ents@.len() - i,
        {
            let mut lv: Vec<String> = Vec::new();
            lv.push(ents[i].0.clone());
            lv.push(ents[i].1.clone());
            lv.push(ents[i].2.clone());
            proof {
                assert(str_seq(lv@) =~= seq![
                    ents@[i as int].0@,
                    ents@[i as int].1@,
                    ents@[i as int].2@,
                ]);
            }
            value_metric.set(lv, 1);
            i += 1;
        }
        proof {
            assert(triple_views(ents@).len() == ents@.len());
            assert(value_metric@ =~= entries_of(metadata.metadata@).map_values(
                |t: (Seq<char>, Seq<char>, Seq<char>)| (seq![t.0, t.1, t.2], 1int),
            ));
        }
        Ok(
            MetricContext {
                stream_labels,
                nginx_build_info: GaugeVec::new(3),
                nginx_rtmp_application_count: 0,
                nginx_rtmp_active_streams: GaugeVec::new(1),
                nginx_rtmp_incoming_bytes_total: 0,
                nginx_rtmp_outgoing_bytes_total: 0,
                nginx_rtmp_incoming_bandwidth: 0,
                nginx_rtmp_outgoing_bandwidth: 0,
                nginx_rtmp_stream_incoming_bytes_total: GaugeVec::new(arity),
                nginx_rtmp_stream_outgoing_bytes_total: GaugeVec::new(arity),
                nginx_rtmp_stream_incoming_bandwidth: GaugeVec::new(arity),
                nginx_rtmp_stream_outgoing_bandwidth: GaugeVec::new(arity),
                nginx_rtmp_stream_bandwidth_video: GaugeVec::new(arity),
                nginx_rtmp_stream_bandwidth_audio: GaugeVec::new(arity),
                nginx_rtmp_stream_publisher_avsync: GaugeVec::new(arity),
                nginx_rtmp_stream_total_clients: GaugeVec::new(arity),
                nginx_rtmp_exporter_metadata_fields: field_metric,
                nginx_rtmp_exporter_metadata_values: value_metric,
            },
        )
    }
}

/// Element-by-element comparison of two label vectors.
fn labels_eq(a: &Vec<String>, b: &Vec<String>) -> (r: bool)
    ensures
        r == (str_seq(a@) == str_seq(b@)),
{
    proof {
        assert(str_seq(a@).len() == a@.len());
        assert(str_seq(b@).len() == b@.len());
    }
    if a.len() != b.len() {
        return false;
    }
    let mut i: usize = 0;
    while i < a.len()
        invariant
            i <= a@.len(),
            a@.len() == b@.len(),
            forall|k: int| 0 <= k < i ==> a@[k]@ == b@[k]@,
        decreases a@.len() - i,
    {
        if !str_eq(a[i].as_str(), b[i].as_str()) {
            proof {
                assert(str_seq(a@)[i as int] != str_seq(b@)[i as int]);
            }
            return false;
        }
        i += 1;
    }
    proof {
        assert(str_seq(a@) =~= str_seq(b@));
    }
    true
}

} // verus!
