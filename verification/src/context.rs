//! The translation engine: one cycle takes the outcome of a poll and
//! rewrites the whole metric surface from it. A cycle is
//! reset-then-populate: every dynamic series is cleared first, so a stream or
//! application that vanished upstream cannot leave a stale series, and a
//! failed poll leaves the surface in its fully reset state.
//!
//! Polling itself (HTTP, XML decoding) lives outside; the engine takes the
//! decoded snapshot, or `None` for a failed poll.

use vstd::prelude::*;

use crate::meta::{str_seq, MetaError, MetaFile};
use crate::metrics::{lemma_series_map_last_match, series_map, spec_schema_ok, spec_valid_label, MetricContext};
use crate::xml::{RtmpApplication, RtmpStats, RtmpStream, RtmpStreamClient};

verus! {

/// The gauge value of an unsigned 64-bit counter: the signed value with the
/// same low 64 bits.
pub open spec fn wrap_i64(x: int) -> int {
    if x <= i64::MAX {
        x
    } else {
        x - 0x1_0000_0000_0000_0000
    }
}

fn u64_to_gauge(x: u64) -> (r: i64)
    ensures
        r as int == wrap_i64(x as int),
{
    if x <= i64::MAX as u64 {
        x as i64
    } else {
        let y = u64::MAX - x;
        -(y as i64) - 1
    }
}

fn usize_to_gauge(n: usize) -> (r: i64)
    ensures
        r as int == wrap_i64(n as int),
{
    u64_to_gauge(n as u64)
}

/// Whether some client of the stream is publishing.
pub open spec fn has_publisher(cs: Seq<RtmpStreamClient>) -> bool {
    exists|i: int| 0 <= i < cs.len() && (#[trigger] cs[i]).publishing is Some
}

/// The AV-sync offset of the first publishing client.
pub open spec fn first_publisher_avsync(cs: Seq<RtmpStreamClient>) -> int
    decreases cs.len(),
{
    if cs.len() == 0 {
        0
    } else if cs[0].publishing is Some {
        cs[0].avsync as int
    } else {
        first_publisher_avsync(cs.drop_first())
    }
}

proof fn lemma_publisher_skip(cs: Seq<RtmpStreamClient>, i: int)
    requires
        0 <= i <= cs.len(),
        forall|j: int| 0 <= j < i ==> (#[trigger] cs[j]).publishing is None,
    ensures
        has_publisher(cs) <==> has_publisher(cs.skip(i)),
        first_publisher_avsync(cs) == first_publisher_avsync(cs.skip(i)),
    decreases i,
{
    assert(cs.skip(0) =~= cs);
    if i > 0 {
        lemma_publisher_skip(cs.drop_first(), i - 1);
        assert(cs.drop_first().skip(i - 1) =~= cs.skip(i));
        assert(has_publisher(cs.drop_first()) ==> has_publisher(cs)) by {
            if has_publisher(cs.drop_first()) {
                let k = choose|k: int|
                    0 <= k < cs.drop_first().len() && (#[trigger] cs.drop_first()[k]).publishing
                        is Some;
                assert(cs[k + 1].publishing is Some);
            }
        }
        assert(has_publisher(cs) ==> has_publisher(cs.drop_first())) by {
            if has_publisher(cs) {
                let k = choose|k: int| 0 <= k < cs.len() && (#[trigger] cs[k]).publishing is Some;
                assert(k > 0);
                assert(cs.drop_first()[k - 1].publishing is Some);
            }
        }
    }
}

/// An active stream: codec metadata is present and at least one client fails
/// the local-relay test. Streams with no attached publisher metadata, and
/// streams whose only connections are internal relay hops, are not real
/// broadcasts.
pub open spec fn spec_stream_active(s: RtmpStream) -> bool {
    &&& s.meta is Some
    &&& exists|i: int| 0 <= i < s.clients@.len() && !(#[trigger] s.clients@[i]).spec_is_local_relay()
}

/// How many of the streams are active.
pub open spec fn active_count(streams: Seq<RtmpStream>) -> int
    decreases streams.len(),
{
    if streams.len() == 0 {
        0
    } else {
        active_count(streams.drop_last()) + if spec_stream_active(streams.last()) {
            1int
        } else {
            0int
        }
    }
}

/// What one per-stream family reads from a stream: `None` keeps the series
/// absent.
pub open spec fn kind_bytes_in() -> spec_fn(RtmpStream) -> Option<int> {
    |s: RtmpStream| Some(wrap_i64(s.bytes_in as int))
}

pub open spec fn kind_bytes_out() -> spec_fn(RtmpStream) -> Option<int> {
    |s: RtmpStream| Some(wrap_i64(s.bytes_out as int))
}

pub open spec fn kind_bw_in() -> spec_fn(RtmpStream) -> Option<int> {
    |s: RtmpStream| Some(wrap_i64(s.bw_in as int))
}

pub open spec fn kind_bw_out() -> spec_fn(RtmpStream) -> Option<int> {
    |s: RtmpStream| Some(wrap_i64(s.bw_out as int))
}

pub open spec fn kind_bw_video() -> spec_fn(RtmpStream) -> Option<int> {
    |s: RtmpStream| Some(wrap_i64(s.bw_video as int))
}

pub open spec fn kind_bw_audio() -> spec_fn(RtmpStream) -> Option<int> {
    |s: RtmpStream| Some(wrap_i64(s.bw_audio as int))
}

/// AV-sync is meaningful only for a stream that carries audio and has a
/// publishing client; otherwise the series stays absent, which is distinct
/// from a measured zero offset.
pub open spec fn kind_avsync() -> spec_fn(RtmpStream) -> Option<int> {
    |s: RtmpStream|
        if s.bw_audio != 0 && has_publisher(s.clients@) {
            Some(first_publisher_avsync(s.clients@))
        } else {
            None
        }
}

/// Total connections minus the one publisher connection.
pub open spec fn kind_total_clients() -> spec_fn(RtmpStream) -> Option<int> {
    |s: RtmpStream| Some(wrap_i64(s.clients@.len() - 1))
}

/// The writes one family receives for the streams of one application, in
/// stream order.
pub open spec fn stream_entries(
    m: MetaFile,
    app: Seq<char>,
    streams: Seq<RtmpStream>,
    f: spec_fn(RtmpStream) -> Option<int>,
) -> Seq<(Seq<Seq<char>>, int)>
    decreases streams.len(),
{
    if streams.len() == 0 {
        Seq::empty()
    } else {
        stream_entries(m, app, streams.drop_last(), f) + (match f(streams.last()) {
            Some(v) => seq![(m.stream_labels(app, streams.last().name@), v)],
            None => Seq::<(Seq<Seq<char>>, int)>::empty(),
        })
    }
}

/// The writes one family receives over a whole snapshot, application by
/// application.
pub open spec fn family_entries(
    m: MetaFile,
    apps: Seq<RtmpApplication>,
    f: spec_fn(RtmpStream) -> Option<int>,
) -> Seq<(Seq<Seq<char>>, int)>
    decreases apps.len(),
{
    if apps.len() == 0 {
        Seq::empty()
    } else {
        family_entries(m, apps.drop_last(), f) + stream_entries(
            m,
            apps.last().name@,
            apps.last().live.streams@,
            f,
        )
    }
}

/// The writes the active-streams family receives: one per application, in
/// order.
pub open spec fn active_entries(apps: Seq<RtmpApplication>) -> Seq<(Seq<Seq<char>>, int)>
    decreases apps.len(),
{
    if apps.len() == 0 {
        Seq::empty()
    } else {
        active_entries(apps.drop_last()) + seq![
            (
                seq![apps.last().name@],
                wrap_i64(active_count(apps.last().live.streams@)),
            ),
        ]
    }
}

/// Every stream of the snapshot reports at least one client (the
/// publisher). The client count a stream series carries is defined as
/// connections minus that one publisher.
pub open spec fn app_snapshot_ok(app: RtmpApplication) -> bool {
    forall|s: int|
        0 <= s < app.live.streams@.len() ==> (#[trigger] app.live.streams@[s]).clients@.len() >= 1
}

pub open spec fn snapshot_ok(st: RtmpStats) -> bool {
    forall|a: int|
        0 <= a < st.server.applications@.len() ==> app_snapshot_ok(
            #[trigger] st.server.applications@[a],
        )
}

/// Whether every stream of the snapshot reports at least one client. Only
/// then is the per-stream client count — connections minus the one
/// publisher — defined, so a cycle requires it.
pub fn snapshot_has_clients(st: &RtmpStats) -> (r: bool)
    ensures
        r == snapshot_ok(*st),
{
    let mut a: usize = 0;
    while a < st.server.applications.len()
        invariant
            a <= st.server.applications@.len(),
            forall|k: int|
                0 <= k < a ==> app_snapshot_ok(#[trigger] st.server.applications@[k]),
        decreases st.server.applications@.len() - a,
    {
        let app = &st.server.applications[a];
        let mut s: usize = 0;
        while s < app.live.streams.len()
            invariant
                s <= app.live.streams@.len(),
                a < st.server.applications@.len(),
                app == &st.server.applications@[a as int],
                forall|k: int|
                    0 <= k < s ==> (#[trigger] app.live.streams@[k]).clients@.len() >= 1,
            decreases app.live.streams@.len() - s,
        {
            if app.live.streams[s].clients.len() == 0 {
                proof {
                    assert(app.live.streams@[s as int].clients@.len() == 0);
                    assert(!app_snapshot_ok(st.server.applications@[a as int]));
                }
                return false;
            }
            s += 1;
        }
        a += 1;
    }
    true
}

/// The surface in its fully reset state: every dynamic series gone, every
/// dynamic scalar zero.
pub open spec fn cycle_reset(mc: MetricContext) -> bool {
    &&& mc.nginx_build_info@ == Seq::<(Seq<Seq<char>>, int)>::empty()
    &&& mc.nginx_rtmp_active_streams@ == Seq::<(Seq<Seq<char>>, int)>::empty()
    &&& mc.nginx_rtmp_stream_incoming_bytes_total@ == Seq::<(Seq<Seq<char>>, int)>::empty()
    &&& mc.nginx_rtmp_stream_outgoing_bytes_total@ == Seq::<(Seq<Seq<char>>, int)>::empty()
    &&& mc.nginx_rtmp_stream_incoming_bandwidth@ == Seq::<(Seq<Seq<char>>, int)>::empty()
    &&& mc.nginx_rtmp_stream_outgoing_bandwidth@ == Seq::<(Seq<Seq<char>>, int)>::empty()
    &&& mc.nginx_rtmp_stream_bandwidth_video@ == Seq::<(Seq<Seq<char>>, int)>::empty()
    &&& mc.nginx_rtmp_stream_bandwidth_audio@ == Seq::<(Seq<Seq<char>>, int)>::empty()
    &&& mc.nginx_rtmp_stream_publisher_avsync@ == Seq::<(Seq<Seq<char>>, int)>::empty()
    &&& mc.nginx_rtmp_stream_total_clients@ == Seq::<(Seq<Seq<char>>, int)>::empty()
    &&& mc.nginx_rtmp_incoming_bytes_total == 0
    &&& mc.nginx_rtmp_outgoing_bytes_total == 0
    &&& mc.nginx_rtmp_incoming_bandwidth == 0
    &&& mc.nginx_rtmp_outgoing_bandwidth == 0
}

/// The surface as one snapshot determines it, series by series.
pub open spec fn cycle_translated(m: MetaFile, mc: MetricContext, st: RtmpStats) -> bool {
    let apps = st.server.applications@;
    &&& mc.nginx_build_info@ == seq![
        (
            seq![st.nginx_version@, st.compiler@, st.nginx_rtmp_version@],
            1int,
        ),
    ]
    &&& mc.nginx_rtmp_incoming_bytes_total as int == wrap_i64(st.bytes_in as int)
    &&& mc.nginx_rtmp_outgoing_bytes_total as int == wrap_i64(st.bytes_out as int)
    &&& mc.nginx_rtmp_incoming_bandwidth as int == wrap_i64(st.bw_in as int)
    &&& mc.nginx_rtmp_outgoing_bandwidth as int == wrap_i64(st.bw_out as int)
    &&& mc.nginx_rtmp_active_streams@ == active_entries(apps)
    &&& mc.nginx_rtmp_stream_incoming_bytes_total@ == family_entries(m, apps, kind_bytes_in())
    &&& mc.nginx_rtmp_stream_outgoing_bytes_total@ == family_entries(m, apps, kind_bytes_out())
    &&& mc.nginx_rtmp_stream_incoming_bandwidth@ == family_entries(m, apps, kind_bw_in())
    &&& mc.nginx_rtmp_stream_outgoing_bandwidth@ == family_entries(m, apps, kind_bw_out())
    &&& mc.nginx_rtmp_stream_bandwidth_video@ == family_entries(m, apps, kind_bw_video())
    &&& mc.nginx_rtmp_stream_bandwidth_audio@ == family_entries(m, apps, kind_bw_audio())
    &&& mc.nginx_rtmp_stream_publisher_avsync@ == family_entries(m, apps, kind_avsync())
    &&& mc.nginx_rtmp_stream_total_clients@ == family_entries(m, apps, kind_total_clients())
}

proof fn lemma_stream_labels_len(m: MetaFile, app: Seq<char>, stream: Seq<char>)
    ensures
        m.stream_labels(app, stream).len() == 2 + m.fields@.len(),
        m.stream_labels(app, stream)[0] == app,
        m.stream_labels(app, stream)[1] == stream,
{
    assert(m.fields@.map_values(|f: String| m.label_value(stream, f@)).len() == m.fields@.len());
}

proof fn lemma_stream_entries_arity(
    m: MetaFile,
    app: Seq<char>,
    streams: Seq<RtmpStream>,
    f: spec_fn(RtmpStream) -> Option<int>,
)
    ensures
        forall|k: int|
            0 <= k < stream_entries(m, app, streams, f).len() ==> (#[trigger] stream_entries(
                m,
                app,
                streams,
                f,
            )[k]).0.len() == 2 + m.fields@.len(),
    decreases streams.len(),
{
    if streams.len() > 0 {
        lemma_stream_entries_arity(m, app, streams.drop_last(), f);
        lemma_stream_labels_len(m, app, streams.last().name@);
        let pre = stream_entries(m, app, streams.drop_last(), f);
        let whole = stream_entries(m, app, streams, f);
        assert forall|k: int| 0 <= k < whole.len() implies (#[trigger] whole[k]).0.len() == 2
            + m.fields@.len() by {
            if k < pre.len() {
                assert(whole[k] == pre[k]);
            } else {
                assert(whole[k].0 == m.stream_labels(app, streams.last().name@));
            }
        }
    }
}

/// Arity, stated once for every per-stream family: each label vector a
/// family receives in a cycle has exactly `2 + |schema|` entries —
/// application, stream, then one value per schema field, in schema order.
pub proof fn lemma_family_label_arity(
    m: MetaFile,
    apps: Seq<RtmpApplication>,
    f: spec_fn(RtmpStream) -> Option<int>,
)
    ensures
        forall|k: int|
            0 <= k < family_entries(m, apps, f).len() ==> (#[trigger] family_entries(m, apps, f)[k]).0.len()
                == 2 + m.fields@.len(),
    decreases apps.len(),
{
    if apps.len() > 0 {
        lemma_family_label_arity(m, apps.drop_last(), f);
        lemma_stream_entries_arity(m, apps.last().name@, apps.last().live.streams@, f);
        let pre = family_entries(m, apps.drop_last(), f);
        let tail = stream_entries(m, apps.last().name@, apps.last().live.streams@, f);
        let whole = family_entries(m, apps, f);
        assert forall|k: int| 0 <= k < whole.len() implies (#[trigger] whole[k]).0.len() == 2
            + m.fields@.len() by {
            if k < pre.len() {
                assert(whole[k] == pre[k]);
            } else {
                assert(whole[k] == tail[k - pre.len()]);
            }
        }
    }
}

/// A stream absent from the dictionary still gets a full label vector: the
/// application and stream names, then the sentinel `"unspecified"` for every
/// schema field — never an error.
pub proof fn lemma_unknown_stream_unspecified(m: MetaFile, app: Seq<char>, stream: Seq<char>)
    requires
        m.stream_entry(stream) is None,
    ensures
        m.stream_labels(app, stream).len() == 2 + m.fields@.len(),
        m.stream_labels(app, stream)[0] == app,
        m.stream_labels(app, stream)[1] == stream,
        forall|k: int|
            2 <= k < m.stream_labels(app, stream).len() ==> #[trigger] m.stream_labels(
                app,
                stream,
            )[k] == "unspecified"@,
{
    lemma_stream_labels_len(m, app, stream);
    assert forall|k: int| 2 <= k < m.stream_labels(app, stream).len() implies #[trigger] m.stream_labels(
        app,
        stream,
    )[k] == "unspecified"@ by {
        assert(m.stream_labels(app, stream)[k] == m.label_value(stream, m.fields@[k - 2]@));
        assert(m.field_value(stream, m.fields@[k - 2]@) is None);
    }
}

/// What the active-stream count counts, stream by stream: a stream with no
/// codec metadata, or whose clients are all local relays, contributes
/// nothing; every other stream contributes one.
pub proof fn lemma_active_count_step(streams: Seq<RtmpStream>, s: RtmpStream)
    ensures
        !spec_stream_active(s) ==> active_count(streams.push(s)) == active_count(streams),
        spec_stream_active(s) ==> active_count(streams.push(s)) == active_count(streams) + 1,
        s.meta is None ==> !spec_stream_active(s),
        (forall|i: int| 0 <= i < s.clients@.len() ==> (#[trigger] s.clients@[i]).spec_is_local_relay())
            ==> !spec_stream_active(s),
{
    assert(streams.push(s).drop_last() =~= streams);
    assert(streams.push(s).last() == s);
}

/// What the active-streams family holds, entry by entry: one series per
/// application, in application order.
pub proof fn lemma_active_entries_shape(apps: Seq<RtmpApplication>)
    ensures
        active_entries(apps).len() == apps.len(),
        forall|k: int|
            0 <= k < apps.len() ==> #[trigger] active_entries(apps)[k] == (
                seq![apps[k].name@],
                wrap_i64(active_count(apps[k].live.streams@)),
            ),
    decreases apps.len(),
{
    if apps.len() > 0 {
        lemma_active_entries_shape(apps.drop_last());
        assert forall|k: int| 0 <= k < apps.len() implies #[trigger] active_entries(apps)[k] == (
            seq![apps[k].name@],
            wrap_i64(active_count(apps[k].live.streams@)),
        ) by {
            if k < apps.len() - 1 {
                assert(active_entries(apps)[k] == active_entries(apps.drop_last())[k]);
                assert(apps.drop_last()[k] == apps[k]);
            }
        }
    }
}

/// The observable active-stream count: after a cycle, the series keyed by an
/// application's name — where no later application shares the name — reads
/// that application's active count.
pub proof fn lemma_active_series_value(apps: Seq<RtmpApplication>, i: int)
    requires
        0 <= i < apps.len(),
        forall|j: int| i < j < apps.len() ==> (#[trigger] apps[j]).name@ != apps[i].name@,
    ensures
        series_map(active_entries(apps)).contains_key(seq![apps[i].name@]),
        series_map(active_entries(apps))[seq![apps[i].name@]] == wrap_i64(
            active_count(apps[i].live.streams@),
        ),
{
    lemma_active_entries_shape(apps);
    let entries = active_entries(apps);
    assert forall|j: int| i < j < entries.len() implies (#[trigger] entries[j]).0 != entries[i].0 by {
        assert(entries[j].0 == seq![apps[j].name@]);
        assert(entries[i].0 == seq![apps[i].name@]);
        assert(seq![apps[j].name@][0] == apps[j].name@);
        assert(seq![apps[i].name@][0] == apps[i].name@);
    }
    lemma_series_map_last_match(entries, i);
}

/// AV-sync applicability: the value a cycle writes for a stream exists iff
/// the stream carries audio bandwidth and has a publishing client — absence
/// is meaningful, distinct from a zero offset — and then reads the first
/// publishing client's offset.
pub proof fn lemma_avsync_applicability(s: RtmpStream)
    ensures
        kind_avsync()(s) is Some <==> (s.bw_audio != 0 && has_publisher(s.clients@)),
        s.bw_audio == 0 ==> kind_avsync()(s) is None,
        kind_avsync()(s) is Some ==> kind_avsync()(s).unwrap() == first_publisher_avsync(
            s.clients@,
        ),
{
}

/// Idempotence under an unchanged upstream: two cycles run from the same
/// dictionary and the same snapshot leave the surface with identical series
/// and identical values, whatever states the two surfaces started from.
pub proof fn lemma_cycle_deterministic(
    m: MetaFile,
    a: MetricContext,
    b: MetricContext,
    st: RtmpStats,
)
    requires
        cycle_translated(m, a, st),
        cycle_translated(m, b, st),
    ensures
        a.nginx_build_info@ == b.nginx_build_info@,
        a.nginx_rtmp_active_streams@ == b.nginx_rtmp_active_streams@,
        a.nginx_rtmp_stream_incoming_bytes_total@ == b.nginx_rtmp_stream_incoming_bytes_total@,
        a.nginx_rtmp_stream_outgoing_bytes_total@ == b.nginx_rtmp_stream_outgoing_bytes_total@,
        a.nginx_rtmp_stream_incoming_bandwidth@ == b.nginx_rtmp_stream_incoming_bandwidth@,
        a.nginx_rtmp_stream_outgoing_bandwidth@ == b.nginx_rtmp_stream_outgoing_bandwidth@,
        a.nginx_rtmp_stream_bandwidth_video@ == b.nginx_rtmp_stream_bandwidth_video@,
        a.nginx_rtmp_stream_bandwidth_audio@ == b.nginx_rtmp_stream_bandwidth_audio@,
        a.nginx_rtmp_stream_publisher_avsync@ == b.nginx_rtmp_stream_publisher_avsync@,
        a.nginx_rtmp_stream_total_clients@ == b.nginx_rtmp_stream_total_clients@,
        a.nginx_rtmp_incoming_bytes_total == b.nginx_rtmp_incoming_bytes_total,
        a.nginx_rtmp_outgoing_bytes_total == b.nginx_rtmp_outgoing_bytes_total,
        a.nginx_rtmp_incoming_bandwidth == b.nginx_rtmp_incoming_bandwidth,
        a.nginx_rtmp_outgoing_bandwidth == b.nginx_rtmp_outgoing_bandwidth,
{
}

/// Whether some client of the stream fails the local-relay test.
fn any_non_relay(clients: &Vec<RtmpStreamClient>) -> (r: bool)
    ensures
        r == exists|i: int|
            0 <= i < clients@.len() && !(#[trigger] clients@[i]).spec_is_local_relay(),
{
    let mut i: usize = 0;
    while i < clients.len()
        invariant
            i <= clients@.len(),
            forall|k: int| 0 <= k < i ==> (#[trigger] clients@[k]).spec_is_local_relay(),
        decreases clients@.len() - i,
    {
        if !clients[i].is_local_relay() {
            return true;
        }
        i += 1;
    }
    false
}

/// The AV-sync offset of the first publishing client, if one exists.
fn find_publisher_avsync(clients: &Vec<RtmpStreamClient>) -> (r: Option<i64>)
    ensures
        r is Some <==> has_publisher(clients@),
        r is Some ==> r.unwrap() as int == first_publisher_avsync(clients@),
{
    let mut i: usize = 0;
    while i < clients.len()
        invariant
            i <= clients@.len(),
            forall|k: int| 0 <= k < i ==> (#[trigger] clients@[k]).publishing is None,
        decreases clients@.len() - i,
    {
        if clients[i].publishing.is_some() {
            proof {
                lemma_publisher_skip(clients@, i as int);
                assert(clients@.skip(i as int)[0] == clients@[i as int]);
            }
            return Some(clients[i].avsync);
        }
        i += 1;
    }
    proof {
        lemma_publisher_skip(clients@, i as int);
        assert(clients@.skip(i as int) =~= Seq::<RtmpStreamClient>::empty());
    }
    None
}

/// Clones a label vector.
fn clone_labels(v: &Vec<String>) -> (r: Vec<String>)
    ensures
        str_seq(r@) == str_seq(v@),
        r@.len() == v@.len(),
{
    let mut out: Vec<String> = Vec::new();
    let mut i: usize = 0;
    while i < v.len()
        invariant
            i <= v@.len(),
            out@.len() == i,
            forall|k: int| 0 <= k < i ==> out@[k]@ == v@[k]@,
        decreases v@.len() - i,
    {
        out.push(v[i].clone());
        i += 1;
    }
    proof {
        assert(str_seq(out@) =~= str_seq(v@));
    }
    out
}

/// The engine's state: the fixed dictionary and the metric surface it
/// rewrites every cycle.
#[derive(Debug)]
pub struct Context {
    pub metadata: MetaFile,
    pub metrics: MetricContext,
}

impl Context {
    /// The surface is shaped for the dictionary: per-stream label vectors
    /// carry one slot per schema field beside application and stream.
    pub open spec fn wf(self) -> bool {
        &&& self.metrics.wf()
        &&& self.metrics.stream_labels@.len() == 2 + self.metadata.fields@.len()
    }

    /// Builds the engine for one dictionary. Fails exactly where the schema
    /// cannot serve as metric label names.
    pub fn new(metadata: MetaFile) -> (r: Result<Context, MetaError>)
        ensures
            r is Ok <==> spec_schema_ok(metadata.fields@),
            r is Err ==> (match r->Err_0 {
                MetaError::InvalidLabelName(f) => !spec_valid_label(f@) && (exists|i: int|
                    0 <= i < metadata.fields@.len() && (#[trigger] metadata.fields@[i])@ == f@),
                MetaError::DuplicateLabelName(f) => exists|i: int|
                    0 <= i < metadata.fields@.len() && (#[trigger] metadata.fields@[i])@ == f@ && (
                    f@ == "application"@ || f@ == "stream"@ || exists|j: int|
                        0 <= j < i && (#[trigger] metadata.fields@[j])@ == f@),
                _ => false,
            }),
            r is Ok ==> ({
                let c = r->Ok_0;
                &&& c.wf()
                &&& c.metadata == metadata
                &&& cycle_reset(c.metrics)
                &&& c.metrics.nginx_rtmp_application_count == 0
            }),
    {
        match MetricContext::from_metadata(&metadata) {
            Ok(metrics) => Ok(Context { metadata, metrics }),
            Err(e) => Err(e),
        }
    }

    /// One translation cycle. The surface is reset first; a failed poll
    /// (`None`) leaves it that way, whatever any earlier cycle wrote. A
    /// snapshot rewrites every dynamic series to exactly what the snapshot
    /// says.
    pub fn collect_metrics(&mut self, stats: Option<&RtmpStats>)
        requires
            old(self).wf(),
            match stats {
                Some(st) => snapshot_ok(*st),
                None => true,
            },
        ensures
            final(self).wf(),
            final(self).metadata == old(self).metadata,
            final(self).metrics.stream_labels == old(self).metrics.stream_labels,
            final(self).metrics.nginx_rtmp_application_count == old(
                self,
            ).metrics.nginx_rtmp_application_count,
            final(self).metrics.nginx_rtmp_exporter_metadata_fields == old(
                self,
            ).metrics.nginx_rtmp_exporter_metadata_fields,
            final(self).metrics.nginx_rtmp_exporter_metadata_values == old(
                self,
            ).metrics.nginx_rtmp_exporter_metadata_values,
            match stats {
                None => cycle_reset(final(self).metrics),
                Some(st) => cycle_translated(final(self).metadata, final(self).metrics, *st),
            },
    {
        // Reset phase: mandatory before anything else, so that an aborted
        // cycle exposes no stale series.
        self.metrics.nginx_build_info.reset();
        self.metrics.nginx_rtmp_incoming_bytes_total = 0;
        self.metrics.nginx_rtmp_outgoing_bytes_total = 0;
        self.metrics.nginx_rtmp_incoming_bandwidth = 0;
        self.metrics.nginx_rtmp_outgoing_bandwidth = 0;
        self.metrics.nginx_rtmp_active_streams.reset();
        self.metrics.nginx_rtmp_stream_bandwidth_audio.reset();
        self.metrics.nginx_rtmp_stream_bandwidth_video.reset();
        self.metrics.nginx_rtmp_stream_incoming_bandwidth.reset();
        self.metrics.nginx_rtmp_stream_outgoing_bandwidth.reset();
        self.metrics.nginx_rtmp_stream_incoming_bytes_total.reset();
        self.metrics.nginx_rtmp_stream_outgoing_bytes_total.reset();
        self.metrics.nginx_rtmp_stream_publisher_avsync.reset();
        self.metrics.nginx_rtmp_stream_total_clients.reset();
        // A failed poll ends the cycle here, in the reset state.
        let st = match stats {
            Some(st) => st,
            None => {
                return;
            },
        };
        // Build info: the one current version combination carries 1.
        let mut bi: Vec<String> = Vec::new();
        bi.push(st.nginx_version.clone());
        bi.push(st.compiler.clone());
        bi.push(st.nginx_rtmp_version.clone());
        proof {
            assert(str_seq(bi@) =~= seq![
                st.nginx_version@,
                st.compiler@,
                st.nginx_rtmp_version@,
            ]);
        }
        self.metrics.nginx_build_info.set(bi, 1);
        proof {
            assert(self.metrics.nginx_build_info@ =~= seq![
                (
                    seq![st.nginx_version@, st.compiler@, st.nginx_rtmp_version@],
                    1int,
                ),
            ]);
        }
        // Root scalars: set, not incremented — the snapshot already carries
        // the authoritative values.
        self.metrics.nginx_rtmp_incoming_bytes_total = u64_to_gauge(st.bytes_in);
        self.metrics.nginx_rtmp_outgoing_bytes_total = u64_to_gauge(st.bytes_out);
        self.metrics.nginx_rtmp_incoming_bandwidth = u64_to_gauge(st.bw_in);
        self.metrics.nginx_rtmp_outgoing_bandwidth = u64_to_gauge(st.bw_out);
        let ghost m = self.metadata;
        let ghost apps_view = st.server.applications@;
        let mut i: usize = 0;
        proof {
            assert(apps_view.take(0) =~= Seq::<RtmpApplication>::empty());
        }
        while i < st.server.applications.len()
            invariant
                i <= apps_view.len(),
                stats == Some(st),
                snapshot_ok(*st),
                apps_view == st.server.applications@,
                m == self.metadata,
                self.wf(),
                self.metadata == old(self).metadata,
                self.metrics.stream_labels == old(self).metrics.stream_labels,
                self.metrics.nginx_rtmp_application_count == old(
                    self,
                ).metrics.nginx_rtmp_application_count,
                self.metrics.nginx_rtmp_exporter_metadata_fields == old(
                    self,
                ).metrics.nginx_rtmp_exporter_metadata_fields,
                self.metrics.nginx_rtmp_exporter_metadata_values == old(
                    self,
                ).metrics.nginx_rtmp_exporter_metadata_values,
                self.metrics.nginx_build_info@ == seq![
                    (
                        seq![st.nginx_version@, st.compiler@, st.nginx_rtmp_version@],
                        1int,
                    ),
                ],
                self.metrics.nginx_rtmp_incoming_bytes_total as int == wrap_i64(st.bytes_in as int),
                self.metrics.nginx_rtmp_outgoing_bytes_total as int == wrap_i64(
                    st.bytes_out as int,
                ),
                self.metrics.nginx_rtmp_incoming_bandwidth as int == wrap_i64(st.bw_in as int),
                self.metrics.nginx_rtmp_outgoing_bandwidth as int == wrap_i64(st.bw_out as int),
                self.metrics.nginx_rtmp_active_streams@ == active_entries(
                    apps_view.take(i as int),
                ),
                self.metrics.nginx_rtmp_stream_incoming_bytes_total@ == family_entries(
                    m,
                    apps_view.take(i as int),
                    kind_bytes_in(),
                ),
                self.metrics.nginx_rtmp_stream_outgoing_bytes_total@ == family_entries(
                    m,
                    apps_view.take(i as int),
                    kind_bytes_out(),
                ),
                self.metrics.nginx_rtmp_stream_incoming_bandwidth@ == family_entries(
                    m,
                    apps_view.take(i as int),
                    kind_bw_in(),
                ),
                self.metrics.nginx_rtmp_stream_outgoing_bandwidth@ == family_entries(
                    m,
                    apps_view.take(i as int),
                    kind_bw_out(),
                ),
                self.metrics.nginx_rtmp_stream_bandwidth_video@ == family_entries(
                    m,
                    apps_view.take(i as int),
                    kind_bw_video(),
                ),
                self.metrics.nginx_rtmp_stream_bandwidth_audio@ == family_entries(
                    m,
                    apps_view.take(i as int),
                    kind_bw_audio(),
                ),
                self.metrics.nginx_rtmp_stream_publisher_avsync@ == family_entries(
                    m,
                    apps_view.take(i as int),
                    kind_avsync(),
                ),
                self.metrics.nginx_rtmp_stream_total_clients@ == family_entries(
                    m,
                    apps_view.take(i as int),
                    kind_total_clients(),
                ),
            decreases apps_view.len() - i,
        {
            let app = &st.server.applications[i];
            // Active-stream count for this application.
            let mut count: usize = 0;
            let mut j: usize = 0;
            proof {
                assert(app.live.streams@.take(0) =~= Seq::<RtmpStream>::empty());
            }
            while j < app.live.streams.len()
                invariant
                    j <= app.live.streams@.len(),
                    count <= j,
                    app == &st.server.applications@[i as int],
                    i < st.server.applications@.len(),
                    count as int == active_count(app.live.streams@.take(j as int)),
                decreases app.live.streams@.len() - j,
            {
                let stream = &app.live.streams[j];
                let active = match &stream.meta {
                    Some(_) => any_non_relay(&stream.clients),
                    None => false,
                };
                if active {
                    count += 1;
                }
                proof {
                    assert(app.live.streams@.take(j + 1).drop_last() =~= app.live.streams@.take(
                        j as int,
                    ));
                    assert(app.live.streams@.take(j + 1).last() == app.live.streams@[j as int]);
                    assert(active == spec_stream_active(app.live.streams@[j as int]));
                }
                j += 1;
            }
            proof {
                assert(app.live.streams@.take(app.live.streams@.len() as int)
                    =~= app.live.streams@);
            }
            let mut al: Vec<String> = Vec::new();
            al.push(app.name.clone());
            proof {
                assert(str_seq(al@) =~= seq![app.name@]);
            }
            self.metrics.nginx_rtmp_active_streams.set(al, usize_to_gauge(count));
            proof {
                assert(apps_view.take(i + 1).drop_last() =~= apps_view.take(i as int));
                assert(apps_view.take(i + 1).last() == apps_view[i as int]);
                assert(self.metrics.nginx_rtmp_active_streams@ =~= active_entries(
                    apps_view.take(i + 1),
                ));
            }
            // Per-stream series.
            let mut j: usize = 0;
            proof {
                assert(app.live.streams@.take(0) =~= Seq::<RtmpStream>::empty());
            }
            while j < app.live.streams.len()
                invariant
                    j <= app.live.streams@.len(),
                    stats == Some(st),
                    snapshot_ok(*st),
                    apps_view == st.server.applications@,
                    m == self.metadata,
                    self.wf(),
                    self.metadata == old(self).metadata,
                    self.metrics.stream_labels == old(self).metrics.stream_labels,
                    self.metrics.nginx_rtmp_application_count == old(
                        self,
                    ).metrics.nginx_rtmp_application_count,
                    self.metrics.nginx_rtmp_exporter_metadata_fields == old(
                        self,
                    ).metrics.nginx_rtmp_exporter_metadata_fields,
                    self.metrics.nginx_rtmp_exporter_metadata_values == old(
                        self,
                    ).metrics.nginx_rtmp_exporter_metadata_values,
                    self.metrics.nginx_build_info@ == seq![
                        (
                            seq![st.nginx_version@, st.compiler@, st.nginx_rtmp_version@],
                            1int,
                        ),
                    ],
                    self.metrics.nginx_rtmp_incoming_bytes_total as int == wrap_i64(
                        st.bytes_in as int,
                    ),
                    self.metrics.nginx_rtmp_outgoing_bytes_total as int == wrap_i64(
                        st.bytes_out as int,
                    ),
                    self.metrics.nginx_rtmp_incoming_bandwidth as int == wrap_i64(st.bw_in as int),
                    self.metrics.nginx_rtmp_outgoing_bandwidth as int == wrap_i64(st.bw_out as int),
                    app == &st.server.applications@[i as int],
                    i < apps_view.len(),
                    self.metrics.nginx_rtmp_active_streams@ == active_entries(
                        apps_view.take(i + 1),
                    ),
                    self.metrics.nginx_rtmp_stream_incoming_bytes_total@ == family_entries(
                        m,
                        apps_view.take(i as int),
                        kind_bytes_in(),
                    ) + stream_entries(
                        m,
                        app.name@,
                        app.live.streams@.take(j as int),
                        kind_bytes_in(),
                    ),
                    self.metrics.nginx_rtmp_stream_outgoing_bytes_total@ == family_entries(
                        m,
                        apps_view.take(i as int),
                        kind_bytes_out(),
                    ) + stream_entries(
                        m,
                        app.name@,
                        app.live.streams@.take(j as int),
                        kind_bytes_out(),
                    ),
                    self.metrics.nginx_rtmp_stream_incoming_bandwidth@ == family_entries(
                        m,
                        apps_view.take(i as int),
                        kind_bw_in(),
                    ) + stream_entries(
                        m,
                        app.name@,
                        app.live.streams@.take(j as int),
                        kind_bw_in(),
                    ),
                    self.metrics.nginx_rtmp_stream_outgoing_bandwidth@ == family_entries(
                        m,
                        apps_view.take(i as int),
                        kind_bw_out(),
                    ) + stream_entries(
                        m,
                        app.name@,
                        app.live.streams@.take(j as int),
                        kind_bw_out(),
                    ),
                    self.metrics.nginx_rtmp_stream_bandwidth_video@ == family_entries(
                        m,
                        apps_view.take(i as int),
                        kind_bw_video(),
                    ) + stream_entries(
                        m,
                        app.name@,
                        app.live.streams@.take(j as int),
                        kind_bw_video(),
                    ),
                    self.metrics.nginx_rtmp_stream_bandwidth_audio@ == family_entries(
                        m,
                        apps_view.take(i as int),
                        kind_bw_audio(),
                    ) + stream_entries(
                        m,
                        app.name@,
                        app.live.streams@.take(j as int),
                        kind_bw_audio(),
                    ),
                    self.metrics.nginx_rtmp_stream_publisher_avsync@ == family_entries(
                        m,
                        apps_view.take(i as int),
                        kind_avsync(),
                    ) + stream_entries(
                        m,
                        app.name@,
                        app.live.streams@.take(j as int),
                        kind_avsync(),
                    ),
                    self.metrics.nginx_rtmp_stream_total_clients@ == family_entries(
                        m,
                        apps_view.take(i as int),
                        kind_total_clients(),
                    ) + stream_entries(
                        m,
                        app.name@,
                        app.live.streams@.take(j as int),
                        kind_total_clients(),
                    ),
                decreases app.live.streams@.len() - j,
            {
                let stream = &app.live.streams[j];
                let ghost sv = app.live.streams@[j as int];
                let ghost streams_v = app.live.streams@;
                let lbs = self.metadata.build_labels(app.name.as_str(), stream.name.as_str());
                proof {
                    assert(str_seq(lbs@) == m.stream_labels(app.name@, sv.name@));
                    assert(streams_v.take(j + 1).drop_last() =~= streams_v.take(j as int));
                    assert(streams_v.take(j + 1).last() == sv);
                }
                let v = clone_labels(&lbs);
                self.metrics.nginx_rtmp_stream_incoming_bytes_total.set(
                    v,
                    u64_to_gauge(stream.bytes_in),
                );
                proof {
                    assert(self.metrics.nginx_rtmp_stream_incoming_bytes_total@ =~= family_entries(
                        m,
                        apps_view.take(i as int),
                        kind_bytes_in(),
                    ) + stream_entries(m, app.name@, streams_v.take(j + 1), kind_bytes_in()));
                }
                let v = clone_labels(&lbs);
                self.metrics.nginx_rtmp_stream_outgoing_bytes_total.set(
                    v,
                    u64_to_gauge(stream.bytes_out),
                );
                proof {
                    assert(self.metrics.nginx_rtmp_stream_outgoing_bytes_total@ =~= family_entries(
                        m,
                        apps_view.take(i as int),
                        kind_bytes_out(),
                    ) + stream_entries(m, app.name@, streams_v.take(j + 1), kind_bytes_out()));
                }
                let v = clone_labels(&lbs);
                self.metrics.nginx_rtmp_stream_incoming_bandwidth.set(
                    v,
                    u64_to_gauge(stream.bw_in),
                );
                proof {
                    assert(self.metrics.nginx_rtmp_stream_incoming_bandwidth@ =~= family_entries(
                        m,
                        apps_view.take(i as int),
                        kind_bw_in(),
                    ) + stream_entries(m, app.name@, streams_v.take(j + 1), kind_bw_in()));
                }
                let v = clone_labels(&lbs);
                self.metrics.nginx_rtmp_stream_outgoing_bandwidth.set(
                    v,
                    u64_to_gauge(stream.bw_out),
                );
                proof {
                    assert(self.metrics.nginx_rtmp_stream_outgoing_bandwidth@ =~= family_entries(
                        m,
                        apps_view.take(i as int),
                        kind_bw_out(),
                    ) + stream_entries(m, app.name@, streams_v.take(j + 1), kind_bw_out()));
                }
                let v = clone_labels(&lbs);
                self.metrics.nginx_rtmp_stream_bandwidth_video.set(v, u64_to_gauge(stream.bw_video));
                proof {
                    assert(self.metrics.nginx_rtmp_stream_bandwidth_video@ =~= family_entries(
                        m,
                        apps_view.take(i as int),
                        kind_bw_video(),
                    ) + stream_entries(m, app.name@, streams_v.take(j + 1), kind_bw_video()));
                }
                let v = clone_labels(&lbs);
                self.metrics.nginx_rtmp_stream_bandwidth_audio.set(v, u64_to_gauge(stream.bw_audio));
                proof {
                    assert(self.metrics.nginx_rtmp_stream_bandwidth_audio@ =~= family_entries(
                        m,
                        apps_view.take(i as int),
                        kind_bw_audio(),
                    ) + stream_entries(m, app.name@, streams_v.take(j + 1), kind_bw_audio()));
                }
                // AV-sync, only where applicable.
                if stream.bw_audio != 0 {
                    match find_publisher_avsync(&stream.clients) {
                        Some(av) => {
                            let v = clone_labels(&lbs);
                            self.metrics.nginx_rtmp_stream_publisher_avsync.set(v, av);
                        },
                        None => {},
                    }
                }
                proof {
                    assert(self.metrics.nginx_rtmp_stream_publisher_avsync@ =~= family_entries(
                        m,
                        apps_view.take(i as int),
                        kind_avsync(),
                    ) + stream_entries(m, app.name@, streams_v.take(j + 1), kind_avsync()));
                }
                // Total connections minus the one publisher.
                proof {
                    assert(app_snapshot_ok(st.server.applications@[i as int]));
                    assert(sv.clients@.len() >= 1);
                }
                self.metrics.nginx_rtmp_stream_total_clients.set(
                    lbs,
                    usize_to_gauge(stream.clients.len() - 1),
                );
                proof {
                    assert(self.metrics.nginx_rtmp_stream_total_clients@ =~= family_entries(
                        m,
                        apps_view.take(i as int),
                        kind_total_clients(),
                    ) + stream_entries(m, app.name@, streams_v.take(j + 1), kind_total_clients()));
                }
                j += 1;
            }
            proof {
                let full = app.live.streams@;
                assert(full.take(full.len() as int) =~= full);
                assert(apps_view.take(i + 1).drop_last() =~= apps_view.take(i as int));
                assert(apps_view.take(i + 1).last() == apps_view[i as int]);
            }
            i += 1;
        }
        proof {
            assert(apps_view.take(apps_view.len() as int) =~= apps_view);
        }
    }
}

} // verus!
