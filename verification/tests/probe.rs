use demovid::json::{JsonMember, JsonValue};
use demovid::probe::{
    extract_duration, ffprobe_report, media_profile, video_profile, DurationSource, ProbeError, VideoProfile,
};

fn s(t: &str) -> JsonValue {
    JsonValue::Str(t.to_string())
}

fn obj(members: Vec<(&str, JsonValue)>) -> JsonValue {
    JsonValue::Object(
        members
            .into_iter()
            .map(|(k, v)| JsonMember { key: k.to_string(), value: v })
            .collect(),
    )
}

fn stream(kind: &str, width: Option<u64>, height: Option<u64>) -> JsonValue {
    let mut m = vec![("codec_type", s(kind))];
    if let Some(w) = width {
        m.push(("width", JsonValue::Number(Some(w))));
    }
    if let Some(h) = height {
        m.push(("height", JsonValue::Number(Some(h))));
    }
    obj(m)
}

#[test]
fn duration_prefers_format() {
    let probe = obj(vec![
        ("format", obj(vec![("duration", s("10.500000"))])),
        ("streams", JsonValue::Array(vec![obj(vec![("duration", s("9.9"))])])),
    ]);
    let d = extract_duration(&probe).unwrap();
    assert_eq!(d.source, DurationSource::Format);
    assert_eq!(d.text, "10.500000");
}

#[test]
fn duration_falls_back_to_first_stream() {
    let probe = obj(vec![
        ("format", obj(vec![("duration", JsonValue::Number(Some(3)))])),
        (
            "streams",
            JsonValue::Array(vec![obj(vec![("duration", s("4.25"))]), obj(vec![("duration", s("7"))])]),
        ),
    ]);
    let d = extract_duration(&probe).unwrap();
    assert_eq!(d.source, DurationSource::FirstStream);
    assert_eq!(d.text, "4.25");
}

#[test]
fn duration_missing() {
    let probe = obj(vec![("streams", JsonValue::Array(vec![]))]);
    assert!(matches!(extract_duration(&probe), Err(ProbeError::NoDuration)));
    assert!(matches!(extract_duration(&JsonValue::Null), Err(ProbeError::NoDuration)));
    assert_eq!(ProbeError::NoDuration.message(), "No duration found in ffprobe output");
}

#[test]
fn profile_reads_first_video_stream_and_audio() {
    let probe = obj(vec![
        ("format", obj(vec![("duration", s("5.0"))])),
        (
            "streams",
            JsonValue::Array(vec![
                stream("audio", None, None),
                stream("video", Some(1919), Some(1081)),
                stream("video", Some(10), Some(10)),
            ]),
        ),
    ]);
    let m = media_profile(&probe).unwrap();
    assert_eq!((m.width, m.height, m.has_audio), (1919, 1081, true));
    assert_eq!(m.duration.text, "5.0");
    assert_eq!(video_profile(&m), VideoProfile { width: 1918, height: 1080 });
}

#[test]
fn profile_without_audio() {
    let probe = obj(vec![
        ("format", obj(vec![("duration", s("1"))])),
        ("streams", JsonValue::Array(vec![stream("video", Some(640), Some(480))])),
    ]);
    let m = media_profile(&probe).unwrap();
    assert!(!m.has_audio);
}

#[test]
fn profile_width_cut_to_32_bits() {
    let probe = obj(vec![
        ("format", obj(vec![("duration", s("1"))])),
        (
            "streams",
            JsonValue::Array(vec![stream("video", Some((1u64 << 32) + 7), Some(480))]),
        ),
    ]);
    assert_eq!(media_profile(&probe).unwrap().width, 7);
}

#[test]
fn profile_errors_in_order() {
    let no_streams = obj(vec![("format", obj(vec![("duration", s("1"))]))]);
    assert!(matches!(media_profile(&no_streams), Err(ProbeError::NoStreams)));
    let streams_not_array = obj(vec![("streams", s("x"))]);
    assert!(matches!(media_profile(&streams_not_array), Err(ProbeError::NoStreams)));
    let no_video = obj(vec![("streams", JsonValue::Array(vec![stream("audio", None, None)]))]);
    assert!(matches!(media_profile(&no_video), Err(ProbeError::NoVideoStream)));
    let no_width = obj(vec![("streams", JsonValue::Array(vec![stream("video", None, Some(2))]))]);
    assert!(matches!(media_profile(&no_width), Err(ProbeError::NoWidth)));
    let negative_width = obj(vec![(
        "streams",
        JsonValue::Array(vec![obj(vec![
            ("codec_type", s("video")),
            ("width", JsonValue::Number(None)),
            ("height", JsonValue::Number(Some(2))),
        ])]),
    )]);
    assert!(matches!(media_profile(&negative_width), Err(ProbeError::NoWidth)));
    let no_height = obj(vec![("streams", JsonValue::Array(vec![stream("video", Some(2), None)]))]);
    assert!(matches!(media_profile(&no_height), Err(ProbeError::NoHeight)));
    let no_duration = obj(vec![("streams", JsonValue::Array(vec![stream("video", Some(2), Some(2))]))]);
    assert!(matches!(media_profile(&no_duration), Err(ProbeError::NoDuration)));
    assert_eq!(ProbeError::NoStreams.message(), "No streams found in ffprobe output");
    assert_eq!(ProbeError::NoVideoStream.message(), "No video stream found in ffprobe output");
    assert_eq!(ProbeError::NoWidth.message(), "No width found in ffprobe output");
    assert_eq!(ProbeError::NoHeight.message(), "No height found in ffprobe output");
}

#[test]
fn json_lookups() {
    let v = obj(vec![("a", JsonValue::Number(Some(1))), ("b", s("x"))]);
    assert!(matches!(v.get("a"), Some(JsonValue::Number(Some(1)))));
    assert!(v.get("c").is_none());
    assert_eq!(v.get("b").and_then(|b| b.as_str()), Some("x"));
    assert_eq!(v.get("a").and_then(|a| a.as_u64()), Some(1));
    assert!(v.as_array().is_none());
    assert!(JsonValue::Bool(true).get("a").is_none());
    assert_eq!(JsonValue::Array(vec![JsonValue::Null]).as_array().map(|a| a.len()), Some(1));
}

#[test]
fn ffprobe_output_is_parsed() {
    let out = br#"{"format":{"duration":"5.500000"},"streams":[{"codec_type":"audio"},{"codec_type":"video","width":1920,"height":-1081,"extra":[1.5,null,true]}]}"#;
    let report = ffprobe_report(true, out, "").unwrap();
    assert_eq!(
        report.get("format").and_then(|f| f.get("duration")).and_then(|d| d.as_str()),
        Some("5.500000")
    );
    let streams = report.get("streams").and_then(|s| s.as_array()).unwrap();
    assert_eq!(streams.len(), 2);
    assert_eq!(streams[1].get("width").and_then(|w| w.as_u64()), Some(1920));
    assert!(matches!(streams[1].get("height"), Some(JsonValue::Number(None))));
    assert!(matches!(media_profile(&report), Err(ProbeError::NoHeight)));
    let extra = streams[1].get("extra").and_then(|e| e.as_array()).unwrap();
    assert!(matches!(extra[0], JsonValue::Number(None)));
    assert!(matches!(extra[1], JsonValue::Null));
    assert!(matches!(extra[2], JsonValue::Bool(true)));
}

#[test]
fn ffprobe_failures() {
    assert_eq!(
        ffprobe_report(true, b"{not json", "").err(),
        Some("Failed to parse ffprobe JSON output".to_string())
    );
    assert_eq!(
        ffprobe_report(false, b"{}", "No such file").err(),
        Some("ffprobe failed: No such file".to_string())
    );
}
