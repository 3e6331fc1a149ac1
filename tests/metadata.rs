use blazecut::probe::{
    metadata_from_report, MetadataError, ProbeFormat, ProbeReport, ProbeStream,
};

fn stream(kind: &str) -> ProbeStream {
    ProbeStream {
        codec_type: Some(kind.to_string()),
        codec_name: None,
        width: None,
        height: None,
        r_frame_rate: None,
    }
}

fn empty_format() -> ProbeFormat {
    ProbeFormat { duration: None, bit_rate: None }
}

#[test]
fn full_report() {
    let mut video = stream("video");
    video.codec_name = Some("h264".to_string());
    video.width = Some(1920);
    video.height = Some(1080);
    video.r_frame_rate = Some("30000/1001".to_string());
    let report = ProbeReport {
        streams: Some(vec![stream("audio"), video]),
        format: ProbeFormat {
            duration: Some("120.500000".to_string()),
            bit_rate: Some("5000000".to_string()),
        },
    };
    let m = metadata_from_report(&report).ok().unwrap();
    assert_eq!(m.width, 1920);
    assert_eq!(m.height, 1080);
    assert_eq!((m.fps.num, m.fps.den), (30000, 1001));
    assert_eq!(m.codec, "h264");
    assert_eq!(m.duration_micros, 120_500_000);
    assert_eq!(m.bitrate, 5_000_000);
}

#[test]
fn missing_fields_take_defaults() {
    let report = ProbeReport { streams: Some(vec![stream("video")]), format: empty_format() };
    let m = metadata_from_report(&report).ok().unwrap();
    assert_eq!(m.width, 0);
    assert_eq!(m.height, 0);
    assert_eq!(m.fps.num, 0);
    assert_eq!(m.codec, "unknown");
    assert_eq!(m.duration_micros, 0);
    assert_eq!(m.bitrate, 0);
}

#[test]
fn oversized_width_counts_as_missing() {
    let mut video = stream("video");
    video.width = Some(1 << 40);
    video.height = Some(720);
    let report = ProbeReport { streams: Some(vec![video]), format: empty_format() };
    let m = metadata_from_report(&report).ok().unwrap();
    assert_eq!(m.width, 0);
    assert_eq!(m.height, 720);
}

#[test]
fn first_video_stream_is_used() {
    let mut first = stream("video");
    first.codec_name = Some("vp9".to_string());
    let mut second = stream("video");
    second.codec_name = Some("av1".to_string());
    let report = ProbeReport {
        streams: Some(vec![stream("audio"), first, second]),
        format: empty_format(),
    };
    assert_eq!(metadata_from_report(&report).ok().unwrap().codec, "vp9");
}

#[test]
fn no_video_stream_is_refused() {
    let untyped = ProbeStream {
        codec_type: None,
        codec_name: None,
        width: Some(640),
        height: Some(480),
        r_frame_rate: None,
    };
    let report = ProbeReport {
        streams: Some(vec![stream("audio"), stream("subtitle"), untyped]),
        format: empty_format(),
    };
    assert_eq!(metadata_from_report(&report).err(), Some(MetadataError::NoVideoStream));
    let empty = ProbeReport { streams: Some(vec![]), format: empty_format() };
    assert_eq!(metadata_from_report(&empty).err(), Some(MetadataError::NoVideoStream));
}

#[test]
fn no_stream_list_is_refused() {
    let report = ProbeReport { streams: None, format: empty_format() };
    assert_eq!(metadata_from_report(&report).err(), Some(MetadataError::NoStreamList));
}
