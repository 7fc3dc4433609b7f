//! Tests of the translation engine: one cycle against concrete snapshots,
//! the reset discipline, and the derived aggregates.

use nginx_rtmp_exporter::context::{snapshot_has_clients, Context};
use nginx_rtmp_exporter::meta::{MetaError, MetaFile};
use nginx_rtmp_exporter::xml::{
    RtmpApplication, RtmpApplicationLiveBlock, RtmpServerBlock, RtmpStats, RtmpStream,
    RtmpStreamAudioMeta, RtmpStreamAudioMetaWrapper, RtmpStreamClient, RtmpStreamMeta,
    RtmpStreamVideoMeta,
};

const RELAY: &str = "ngx-local-relay";

fn client(address: Option<&str>, flashver: Option<&str>, publishing: bool, avsync: i64) -> RtmpStreamClient {
    RtmpStreamClient {
        id: 7,
        address: address.map(|s| s.to_owned()),
        time: 100,
        flashver: flashver.map(|s| s.to_owned()),
        pageurl: None,
        dropped: 0,
        avsync,
        timestamp: 0,
        publishing: if publishing { Some(()) } else { None },
        active: Some(()),
    }
}

fn meta() -> RtmpStreamMeta {
    RtmpStreamMeta {
        video: RtmpStreamVideoMeta {
            width: 1920,
            height: 1080,
            frame_rate: "60".to_owned(),
            codec: "H264".to_owned(),
            profile: "High".to_owned(),
            compat: 0,
            level: "4.1".to_owned(),
        },
        audio: RtmpStreamAudioMetaWrapper {
            inner: Some(RtmpStreamAudioMeta {
                codec: "AAC".to_owned(),
                profile: "LC".to_owned(),
                channels: 2,
                sample_rate: 48000,
            }),
        },
    }
}

fn stream(name: &str, with_meta: bool, bw_audio: u64, clients: Vec<RtmpStreamClient>) -> RtmpStream {
    RtmpStream {
        name: name.to_owned(),
        time: 1000,
        bytes_in: 11,
        bytes_out: 22,
        bw_in: 33,
        bw_out: 44,
        bw_audio,
        bw_video: 55,
        clients,
        meta: if with_meta { Some(meta()) } else { None },
    }
}

fn snapshot(applications: Vec<RtmpApplication>) -> RtmpStats {
    RtmpStats {
        nginx_version: "1.25.0".to_owned(),
        nginx_rtmp_version: "1.2.2".to_owned(),
        compiler: "gcc".to_owned(),
        pid: 42,
        uptime: 3600,
        naccepted: 5,
        bw_in: 1000,
        bytes_in: 2000,
        bw_out: 3000,
        bytes_out: 4000,
        server: RtmpServerBlock { applications },
    }
}

fn app(name: &str, streams: Vec<RtmpStream>) -> RtmpApplication {
    RtmpApplication {
        name: name.to_owned(),
        live: RtmpApplicationLiveBlock { streams },
    }
}

fn labels(parts: &[&str]) -> Vec<String> {
    parts.iter().map(|s| (*s).to_owned()).collect()
}

fn dictionary() -> MetaFile {
    let mut m = MetaFile::default();
    m.add_field("owner");
    m.add_value("talk", "owner", "ops").unwrap();
    m
}

#[test]
fn active_streams_excludes_meta_less_and_relay_only() {
    // Stream A: meta present, one viewer-looking client with a private
    // address. Stream B: no meta. Active count for "live" must be 1.
    let a = stream("a", true, 0, vec![client(Some("192.168.1.5"), Some("FMLE/3.0"), true, 0)]);
    let b = stream("b", false, 0, vec![client(None, None, true, 0)]);
    // A third stream whose only client is a local relay is not active
    // either.
    let c = stream("c", true, 0, vec![client(Some("127.0.0.1"), Some(RELAY), true, 0)]);
    let mut ctx = Context::new(MetaFile::default()).unwrap();
    ctx.collect_metrics(Some(&snapshot(vec![app("live", vec![a, b, c])])));
    assert_eq!(
        ctx.metrics.nginx_rtmp_active_streams.get(&labels(&["live"])),
        Some(1)
    );
}

#[test]
fn per_stream_series_carry_snapshot_values() {
    let mut ctx = Context::new(dictionary()).unwrap();
    let s = stream("talk", true, 66, vec![client(None, None, true, -3)]);
    ctx.collect_metrics(Some(&snapshot(vec![app("live", vec![s])])));
    let key = labels(&["live", "talk", "ops"]);
    assert_eq!(ctx.metrics.nginx_rtmp_stream_incoming_bytes_total.get(&key), Some(11));
    assert_eq!(ctx.metrics.nginx_rtmp_stream_outgoing_bytes_total.get(&key), Some(22));
    assert_eq!(ctx.metrics.nginx_rtmp_stream_incoming_bandwidth.get(&key), Some(33));
    assert_eq!(ctx.metrics.nginx_rtmp_stream_outgoing_bandwidth.get(&key), Some(44));
    assert_eq!(ctx.metrics.nginx_rtmp_stream_bandwidth_audio.get(&key), Some(66));
    assert_eq!(ctx.metrics.nginx_rtmp_stream_bandwidth_video.get(&key), Some(55));
}

#[test]
fn unknown_stream_labels_read_unspecified() {
    let mut ctx = Context::new(dictionary()).unwrap();
    let s = stream("ghost", true, 0, vec![client(None, None, true, 0)]);
    ctx.collect_metrics(Some(&snapshot(vec![app("live", vec![s])])));
    let key = labels(&["live", "ghost", "unspecified"]);
    assert_eq!(ctx.metrics.nginx_rtmp_stream_incoming_bytes_total.get(&key), Some(11));
    // Label vectors always have arity 2 + |schema|.
    for (lv, _) in ctx.metrics.nginx_rtmp_stream_incoming_bytes_total.series() {
        assert_eq!(lv.len(), 2 + ctx.metadata.get_fields().len());
    }
}

#[test]
fn avsync_absent_without_audio_or_publisher() {
    let mut ctx = Context::new(dictionary()).unwrap();
    // Audio bandwidth zero: series absent even with a publisher.
    let quiet = stream("talk", true, 0, vec![client(None, None, true, -3)]);
    ctx.collect_metrics(Some(&snapshot(vec![app("live", vec![quiet])])));
    let key = labels(&["live", "talk", "ops"]);
    assert_eq!(ctx.metrics.nginx_rtmp_stream_publisher_avsync.get(&key), None);
    // Audio bandwidth nonzero but no publishing client: still absent.
    let no_pub = stream("talk", true, 66, vec![client(None, None, false, -3)]);
    ctx.collect_metrics(Some(&snapshot(vec![app("live", vec![no_pub])])));
    assert_eq!(ctx.metrics.nginx_rtmp_stream_publisher_avsync.get(&key), None);
    // Both present: the first publishing client's offset.
    let loud = stream(
        "talk",
        true,
        66,
        vec![client(None, None, false, 9), client(None, None, true, -3)],
    );
    ctx.collect_metrics(Some(&snapshot(vec![app("live", vec![loud])])));
    assert_eq!(ctx.metrics.nginx_rtmp_stream_publisher_avsync.get(&key), Some(-3));
}

#[test]
fn total_clients_is_connections_minus_publisher() {
    let mut ctx = Context::new(dictionary()).unwrap();
    // Exactly one client (the publisher, no viewers): total clients 0.
    let alone = stream("talk", true, 0, vec![client(None, None, true, 0)]);
    ctx.collect_metrics(Some(&snapshot(vec![app("live", vec![alone])])));
    let key = labels(&["live", "talk", "ops"]);
    assert_eq!(ctx.metrics.nginx_rtmp_stream_total_clients.get(&key), Some(0));
    // Publisher plus two viewers: 2.
    let busy = stream(
        "talk",
        true,
        0,
        vec![
            client(None, None, true, 0),
            client(Some("8.8.8.8"), None, false, 0),
            client(Some("9.9.9.9"), None, false, 0),
        ],
    );
    ctx.collect_metrics(Some(&snapshot(vec![app("live", vec![busy])])));
    assert_eq!(ctx.metrics.nginx_rtmp_stream_total_clients.get(&key), Some(2));
}

#[test]
fn build_info_and_root_scalars() {
    let mut ctx = Context::new(MetaFile::default()).unwrap();
    ctx.collect_metrics(Some(&snapshot(vec![])));
    assert_eq!(
        ctx.metrics.nginx_build_info.get(&labels(&["1.25.0", "gcc", "1.2.2"])),
        Some(1)
    );
    assert_eq!(ctx.metrics.nginx_build_info.len(), 1);
    assert_eq!(ctx.metrics.nginx_rtmp_incoming_bytes_total, 2000);
    assert_eq!(ctx.metrics.nginx_rtmp_outgoing_bytes_total, 4000);
    assert_eq!(ctx.metrics.nginx_rtmp_incoming_bandwidth, 1000);
    assert_eq!(ctx.metrics.nginx_rtmp_outgoing_bandwidth, 3000);
}

#[test]
fn failed_fetch_leaves_everything_reset() {
    let mut ctx = Context::new(dictionary()).unwrap();
    let s = stream("talk", true, 66, vec![client(None, None, true, -3)]);
    ctx.collect_metrics(Some(&snapshot(vec![app("live", vec![s])])));
    assert!(ctx.metrics.nginx_rtmp_stream_incoming_bytes_total.len() > 0);
    // A failed poll on the next cycle: every dynamic series is gone, every
    // dynamic scalar is zero, whatever the previous cycle wrote.
    ctx.collect_metrics(None);
    assert_eq!(ctx.metrics.nginx_build_info.len(), 0);
    assert_eq!(ctx.metrics.nginx_rtmp_active_streams.len(), 0);
    assert_eq!(ctx.metrics.nginx_rtmp_stream_incoming_bytes_total.len(), 0);
    assert_eq!(ctx.metrics.nginx_rtmp_stream_outgoing_bytes_total.len(), 0);
    assert_eq!(ctx.metrics.nginx_rtmp_stream_incoming_bandwidth.len(), 0);
    assert_eq!(ctx.metrics.nginx_rtmp_stream_outgoing_bandwidth.len(), 0);
    assert_eq!(ctx.metrics.nginx_rtmp_stream_bandwidth_audio.len(), 0);
    assert_eq!(ctx.metrics.nginx_rtmp_stream_bandwidth_video.len(), 0);
    assert_eq!(ctx.metrics.nginx_rtmp_stream_publisher_avsync.len(), 0);
    assert_eq!(ctx.metrics.nginx_rtmp_stream_total_clients.len(), 0);
    assert_eq!(ctx.metrics.nginx_rtmp_incoming_bytes_total, 0);
    assert_eq!(ctx.metrics.nginx_rtmp_outgoing_bytes_total, 0);
    assert_eq!(ctx.metrics.nginx_rtmp_incoming_bandwidth, 0);
    assert_eq!(ctx.metrics.nginx_rtmp_outgoing_bandwidth, 0);
    // The startup diagnostics are not dynamic and stay.
    assert_eq!(ctx.metrics.nginx_rtmp_exporter_metadata_fields.len(), 1);
    assert_eq!(ctx.metrics.nginx_rtmp_exporter_metadata_values.len(), 1);
}

#[test]
fn translate_twice_is_idempotent() {
    let mut ctx = Context::new(dictionary()).unwrap();
    let snap = snapshot(vec![
        app(
            "live",
            vec![
                stream("talk", true, 66, vec![client(Some("::1"), Some(RELAY), true, 4)]),
                stream("news", false, 0, vec![client(None, None, true, 0)]),
            ],
        ),
        app("vod", vec![]),
    ]);
    ctx.collect_metrics(Some(&snap));
    let first_in_bytes = ctx.metrics.nginx_rtmp_stream_incoming_bytes_total.series().clone();
    let first_active = ctx.metrics.nginx_rtmp_active_streams.series().clone();
    let first_avsync = ctx.metrics.nginx_rtmp_stream_publisher_avsync.series().clone();
    let first_clients = ctx.metrics.nginx_rtmp_stream_total_clients.series().clone();
    ctx.collect_metrics(Some(&snap));
    assert_eq!(ctx.metrics.nginx_rtmp_stream_incoming_bytes_total.series(), &first_in_bytes);
    assert_eq!(ctx.metrics.nginx_rtmp_active_streams.series(), &first_active);
    assert_eq!(ctx.metrics.nginx_rtmp_stream_publisher_avsync.series(), &first_avsync);
    assert_eq!(ctx.metrics.nginx_rtmp_stream_total_clients.series(), &first_clients);
}

#[test]
fn vanished_stream_leaves_no_stale_series() {
    let mut ctx = Context::new(dictionary()).unwrap();
    let two = snapshot(vec![app(
        "live",
        vec![
            stream("talk", true, 0, vec![client(None, None, true, 0)]),
            stream("news", true, 0, vec![client(None, None, true, 0)]),
        ],
    )]);
    ctx.collect_metrics(Some(&two));
    let news_key = labels(&["live", "news", "unspecified"]);
    assert!(ctx.metrics.nginx_rtmp_stream_incoming_bytes_total.get(&news_key).is_some());
    // "news" vanishes between cycles; its series must vanish with it.
    let one = snapshot(vec![app(
        "live",
        vec![stream("talk", true, 0, vec![client(None, None, true, 0)])],
    )]);
    ctx.collect_metrics(Some(&one));
    assert_eq!(ctx.metrics.nginx_rtmp_stream_incoming_bytes_total.get(&news_key), None);
    assert!(ctx.metrics.nginx_rtmp_stream_incoming_bytes_total
        .get(&labels(&["live", "talk", "ops"]))
        .is_some());
}

#[test]
fn schema_fields_become_label_names_only_when_valid() {
    let mut bad = MetaFile::default();
    bad.add_field("display-name");
    let err = Context::new(bad).unwrap_err();
    assert!(matches!(err, MetaError::InvalidLabelName(f) if f == "display-name"));

    let mut reserved = MetaFile::default();
    reserved.add_field("__secret");
    assert!(matches!(
        Context::new(reserved).unwrap_err(),
        MetaError::InvalidLabelName(f) if f == "__secret"
    ));

    let mut clash = MetaFile::default();
    clash.add_field("stream");
    assert!(matches!(
        Context::new(clash).unwrap_err(),
        MetaError::DuplicateLabelName(f) if f == "stream"
    ));

    let mut twice = MetaFile::default();
    twice.add_field("owner");
    twice.add_field("owner");
    assert!(matches!(
        Context::new(twice).unwrap_err(),
        MetaError::DuplicateLabelName(f) if f == "owner"
    ));

    let mut fine = MetaFile::default();
    fine.add_field("owner_name");
    fine.add_field("_region2");
    assert!(Context::new(fine).is_ok());
}

#[test]
fn startup_diagnostics_describe_the_dictionary() {
    let mut m = MetaFile::default();
    m.add_field("owner");
    m.add_field("region");
    m.add_value("talk", "owner", "ops").unwrap();
    m.add_value("talk", "region", "eu").unwrap();
    let ctx = Context::new(m).unwrap();
    assert_eq!(
        ctx.metrics.stream_labels,
        labels(&["application", "stream", "owner", "region"])
    );
    assert_eq!(
        ctx.metrics.nginx_rtmp_exporter_metadata_fields.get(&labels(&["owner"])),
        Some(1)
    );
    assert_eq!(
        ctx.metrics.nginx_rtmp_exporter_metadata_fields.get(&labels(&["region"])),
        Some(1)
    );
    assert_eq!(
        ctx.metrics.nginx_rtmp_exporter_metadata_values.get(&labels(&["talk", "owner", "ops"])),
        Some(1)
    );
    assert_eq!(
        ctx.metrics.nginx_rtmp_exporter_metadata_values.get(&labels(&["talk", "region", "eu"])),
        Some(1)
    );
    // Fresh surface: the application-count gauge and all dynamic state start
    // at zero.
    assert_eq!(ctx.metrics.nginx_rtmp_application_count, 0);
    assert_eq!(ctx.metrics.nginx_rtmp_stream_total_clients.len(), 0);
}

#[test]
fn zero_client_stream_fails_the_snapshot_check() {
    // A stream with no client at all would make "connections minus the one
    // publisher" underflow; a cycle is defined only for snapshots that pass
    // this check, and the caller must treat the rest as a failed poll.
    let empty = snapshot(vec![app("live", vec![stream("talk", true, 0, vec![])])]);
    assert!(!snapshot_has_clients(&empty));
    let ok = snapshot(vec![app("live", vec![stream("talk", true, 0, vec![client(None, None, true, 0)])])]);
    assert!(snapshot_has_clients(&ok));
    assert!(snapshot_has_clients(&snapshot(vec![])));
}

#[test]
fn counters_past_i64_wrap_like_gauges() {
    let mut ctx = Context::new(MetaFile::default()).unwrap();
    let mut snap = snapshot(vec![]);
    snap.bytes_in = u64::MAX;
    snap.bytes_out = i64::MAX as u64 + 1;
    ctx.collect_metrics(Some(&snap));
    assert_eq!(ctx.metrics.nginx_rtmp_incoming_bytes_total, -1);
    assert_eq!(ctx.metrics.nginx_rtmp_outgoing_bytes_total, i64::MIN);
}

#[test]
fn duplicate_stream_names_last_write_wins() {
    let mut ctx = Context::new(dictionary()).unwrap();
    let mut early = stream("talk", true, 0, vec![client(None, None, true, 0)]);
    early.bytes_in = 1;
    let mut late = stream("talk", true, 0, vec![client(None, None, true, 0)]);
    late.bytes_in = 2;
    ctx.collect_metrics(Some(&snapshot(vec![app("live", vec![early, late])])));
    let key = labels(&["live", "talk", "ops"]);
    assert_eq!(ctx.metrics.nginx_rtmp_stream_incoming_bytes_total.get(&key), Some(2));
}
