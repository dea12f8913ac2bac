//! What the tool reads out of ffprobe's JSON report: durations, frame size and
//! whether a file carries sound.

use vstd::prelude::*;
use crate::json::{json_as_array, json_get, member_str, member_u64, parse_json, parsed_json, JsonValue};
use crate::text::str_eq;

verus! {

/// Where a duration was found in an ffprobe report.
#[derive(Clone, Copy, Debug, PartialEq, Eq, Structural)]
pub enum DurationSource {
    /// `format.duration`
    Format,
    /// `streams[0].duration`
    FirstStream,
}

/// A duration as ffprobe wrote it (seconds, in decimal text), with where it was found.
/// Turning the text into a number is left to the caller.
pub struct DurationText {
    pub source: DurationSource,
    pub text: String,
}

impl View for DurationText {
    type V = (DurationSource, Seq<char>);

    open spec fn view(&self) -> (DurationSource, Seq<char>) {
        (self.source, self.text@)
    }
}

/// Reasons why an ffprobe report lacks what the tool needs.
#[derive(Clone, Copy, Debug, PartialEq, Eq, Structural)]
pub enum ProbeError {
    NoDuration,
    NoStreams,
    NoVideoStream,
    NoWidth,
    NoHeight,
}

impl ProbeError {
    /// The message shown to the user.
    pub fn message(&self) -> (r: &'static str)
        ensures
            *self == ProbeError::NoDuration ==> r@ == "No duration found in ffprobe output"@,
            *self == ProbeError::NoStreams ==> r@ == "No streams found in ffprobe output"@,
            *self == ProbeError::NoVideoStream ==> r@ == "No video stream found in ffprobe output"@,
            *self == ProbeError::NoWidth ==> r@ == "No width found in ffprobe output"@,
            *self == ProbeError::NoHeight ==> r@ == "No height found in ffprobe output"@,
    {
        match self {
            ProbeError::NoDuration => "No duration found in ffprobe output",
            ProbeError::NoStreams => "No streams found in ffprobe output",
            ProbeError::NoVideoStream => "No video stream found in ffprobe output",
            ProbeError::NoWidth => "No width found in ffprobe output",
            ProbeError::NoHeight => "No height found in ffprobe output",
        }
    }
}

/// `format.duration` of a report, when it is a string.
pub open spec fn format_duration(probe: JsonValue) -> Option<Seq<char>> {
    match json_get(probe, "format"@) {
        Some(f) => member_str(f, "duration"@),
        None => None,
    }
}

/// The `streams` array of a report, when there is one.
pub open spec fn report_streams(probe: JsonValue) -> Option<Seq<JsonValue>> {
    match json_get(probe, "streams"@) {
        Some(s) => json_as_array(s),
        None => None,
    }
}

/// `streams[0].duration` of a report, when it is a string.
pub open spec fn first_stream_duration(probe: JsonValue) -> Option<Seq<char>> {
    match report_streams(probe) {
        Some(streams) => if streams.len() > 0 {
            member_str(streams[0], "duration"@)
        } else {
            None
        },
        None => None,
    }
}

/// The duration text of a report: `format.duration` when present, else `streams[0].duration`.
pub open spec fn probe_duration(probe: JsonValue) -> Option<(DurationSource, Seq<char>)> {
    match format_duration(probe) {
        Some(t) => Some((DurationSource::Format, t)),
        None => match first_stream_duration(probe) {
            Some(t) => Some((DurationSource::FirstStream, t)),
            None => None,
        },
    }
}

/// Finds the duration text in an ffprobe report: `format.duration` first, then
/// `streams[0].duration`.
pub fn extract_duration(probe: &JsonValue) -> (r: Result<DurationText, ProbeError>)
    ensures
        match r {
            Ok(d) => probe_duration(*probe) == Some(d@),
            Err(e) => probe_duration(*probe) is None && e == ProbeError::NoDuration,
        },
{
    if let Some(f) = probe.get("format") {
        if let Some(d) = f.get("duration") {
            if let Some(s) = d.as_str() {
                return Ok(DurationText { source: DurationSource::Format, text: s.to_string() });
            }
        }
    }
    if let Some(s) = probe.get("streams") {
        if let Some(arr) = s.as_array() {
            if arr.len() > 0 {
                if let Some(d) = arr[0].get("duration") {
                    if let Some(t) = d.as_str() {
                        return Ok(DurationText { source: DurationSource::FirstStream, text: t.to_string() });
                    }
                }
            }
        }
    }
    Err(ProbeError::NoDuration)
}

/// `codec_type` of a stream entry, when it is a string.
pub open spec fn codec_type(stream: JsonValue) -> Option<Seq<char>> {
    member_str(stream, "codec_type"@)
}

/// Index of the first stream at or after `i` whose `codec_type` is `kind`.
pub open spec fn first_stream_of(streams: Seq<JsonValue>, kind: Seq<char>, i: int) -> Option<int>
    decreases streams.len() - i,
{
    if i < 0 || i >= streams.len() {
        None
    } else if codec_type(streams[i]) == Some(kind) {
        Some(i)
    } else {
        first_stream_of(streams, kind, i + 1)
    }
}

/// Some stream has `codec_type` equal to `kind`.
pub open spec fn has_stream_of(streams: Seq<JsonValue>, kind: Seq<char>) -> bool {
    exists|i: int| 0 <= i < streams.len() && codec_type(#[trigger] streams[i]) == Some(kind)
}

/// Frame size, duration and sound of a media file.
pub struct MediaProfile {
    pub width: u32,
    pub height: u32,
    pub duration: DurationText,
    pub has_audio: bool,
}

impl View for MediaProfile {
    type V = (u32, u32, (DurationSource, Seq<char>), bool);

    open spec fn view(&self) -> (u32, u32, (DurationSource, Seq<char>), bool) {
        (self.width, self.height, self.duration@, self.has_audio)
    }
}

/// The profile that a report describes: width and height of the first video stream
/// (cut to 32 bits), the duration text, and whether any stream is audio; or the first
/// thing missing, checked in the order streams, video stream, width, height, duration.
pub open spec fn media_profile_spec(probe: JsonValue) -> Result<(u32, u32, (DurationSource, Seq<char>), bool), ProbeError> {
    match report_streams(probe) {
        None => Err(ProbeError::NoStreams),
        Some(streams) => match first_stream_of(streams, "video"@, 0) {
            None => Err(ProbeError::NoVideoStream),
            Some(v) => match member_u64(streams[v], "width"@) {
                None => Err(ProbeError::NoWidth),
                Some(w) => match member_u64(streams[v], "height"@) {
                    None => Err(ProbeError::NoHeight),
                    Some(h) => match probe_duration(probe) {
                        None => Err(ProbeError::NoDuration),
                        Some(d) => Ok((w as u32, h as u32, d, has_stream_of(streams, "audio"@))),
                    },
                },
            },
        },
    }
}

/// Whether a stream entry's `codec_type` is the string `kind`.
fn is_codec(stream: &JsonValue, kind: &str) -> (r: bool)
    ensures
        r == (codec_type(*stream) == Some(kind@)),
{
    match stream.get("codec_type") {
        Some(c) => match c.as_str() {
            Some(t) => str_eq(t, kind),
            None => false,
        },
        None => false,
    }
}

/// Reads the frame size, duration and sound of a media file from its ffprobe report.
pub fn media_profile(probe: &JsonValue) -> (r: Result<MediaProfile, ProbeError>)
    ensures
        r matches Ok(m) ==> (m.has_audio <==> exists|i: int|
            0 <= i < report_streams(*probe)->0.len() && #[trigger] member_str(
                report_streams(*probe)->0[i],
                "codec_type"@,
            ) == Some("audio"@)),
        match r {
            Ok(m) => media_profile_spec(*probe) == Ok::<_, ProbeError>(m@),
            Err(e) => media_profile_spec(*probe) == Err::<(u32, u32, (DurationSource, Seq<char>), bool), _>(e),
        },
{
    let streams = match probe.get("streams") {
        Some(s) => match s.as_array() {
            Some(a) => a,
            None => return Err(ProbeError::NoStreams),
        },
        None => return Err(ProbeError::NoStreams),
    };
    let mut i: usize = 0;
    while i < streams.len() && !is_codec(&streams[i], "video")
        invariant
            i <= streams.len(),
            first_stream_of(streams@, "video"@, 0) == first_stream_of(streams@, "video"@, i as int),
        decreases streams.len() - i,
    {
        i += 1;
    }
    if i == streams.len() {
        return Err(ProbeError::NoVideoStream);
    }
    let video = &streams[i];
    let width = match video.get("width") {
        Some(w) => match w.as_u64() {
            Some(n) => n,
            None => return Err(ProbeError::NoWidth),
        },
        None => return Err(ProbeError::NoWidth),
    };
    let height = match video.get("height") {
        Some(h) => match h.as_u64() {
            Some(n) => n,
            None => return Err(ProbeError::NoHeight),
        },
        None => return Err(ProbeError::NoHeight),
    };
    let mut has_audio = false;
    let mut j: usize = 0;
    while j < streams.len()
        invariant
            j <= streams.len(),
            has_audio == exists|k: int| 0 <= k < j && codec_type(#[trigger] streams@[k]) == Some("audio"@),
        decreases streams.len() - j,
    {
        if is_codec(&streams[j], "audio") {
            has_audio = true;
        }
        j += 1;
    }
    let duration = extract_duration(probe)?;
    let m = MediaProfile { width: width as u32, height: height as u32, duration, has_audio };
    proof {
        lemma_media_profile_reads_report(*probe);
    }
    Ok(m)
}

/// `value` rounded down to an even number.
pub open spec fn even_down(value: u32) -> u32 {
    if value % 2 == 0 {
        value
    } else {
        (value - 1) as u32
    }
}

/// Rounds a frame dimension down to an even number, as H.264 in 4:2:0 requires.
pub fn even_dimension(value: u32) -> (r: u32)
    ensures
        r == even_down(value),
        r % 2 == 0,
        r <= value,
        value - r <= 1,
{
    if value % 2 == 0 {
        value
    } else {
        value - 1
    }
}

/// The frame size that an assembled video gets.
#[derive(Clone, Copy, Debug, PartialEq, Eq, Structural)]
pub struct VideoProfile {
    pub width: u32,
    pub height: u32,
}

/// The output frame size for a first clip: its width and height rounded down to even.
pub fn video_profile(media: &MediaProfile) -> (r: VideoProfile)
    ensures
        r.width == even_down(media.width),
        r.height == even_down(media.height),
{
    VideoProfile { width: even_dimension(media.width), height: even_dimension(media.height) }
}

/// What a finished ffprobe run yields: its report when ffprobe succeeded and printed
/// one JSON document, else the error message the user sees.
pub open spec fn probe_report_spec(success: bool, stderr: Seq<char>, parsed: Option<JsonValue>) -> Result<JsonValue, Seq<char>> {
    if !success {
        Err("ffprobe failed: "@ + stderr)
    } else {
        match parsed {
            Some(v) => Ok(v),
            None => Err("Failed to parse ffprobe JSON output"@),
        }
    }
}

/// Turns the parse of a finished ffprobe run's stdout into its report or an error.
pub fn probe_report_from(success: bool, stderr: &str, parsed: Option<JsonValue>) -> (r: Result<JsonValue, String>)
    ensures
        match r {
            Ok(v) => probe_report_spec(success, stderr@, parsed) == Ok::<JsonValue, Seq<char>>(v),
            Err(m) => probe_report_spec(success, stderr@, parsed) == Err::<JsonValue, Seq<char>>(m@),
        },
        !success ==> (r matches Err(m) && m@ == "ffprobe failed: "@ + stderr@),
        success && parsed is Some ==> (r matches Ok(v) && v == parsed->0),
        success && parsed is None ==> (r matches Err(m) && m@ == "Failed to parse ffprobe JSON output"@),
{
    if !success {
        let mut m = String::new();
        m.append("ffprobe failed: ");
        m.append(stderr);
        return Err(m);
    }
    match parsed {
        Some(v) => Ok(v),
        None => Err("Failed to parse ffprobe JSON output".to_string()),
    }
}

/// Reads a finished ffprobe run: its exit status, its stdout bytes and its stderr (as
/// text). The stdout is parsed only when ffprobe succeeded.
pub fn ffprobe_report(success: bool, stdout: &[u8], stderr: &str) -> (r: Result<JsonValue, String>)
    ensures
        match r {
            Ok(v) => probe_report_spec(success, stderr@, parsed_json(stdout@)) == Ok::<JsonValue, Seq<char>>(v),
            Err(m) => probe_report_spec(success, stderr@, parsed_json(stdout@)) == Err::<JsonValue, Seq<char>>(m@),
        },
        !success ==> (r matches Err(m) && m@ == "ffprobe failed: "@ + stderr@),
        success && parsed_json(stdout@) is Some ==> (r matches Ok(v) && v == parsed_json(stdout@)->0),
        success && parsed_json(stdout@) is None ==> (r matches Err(m) && m@ == "Failed to parse ffprobe JSON output"@),
{
    if !success {
        return probe_report_from(false, stderr, None);
    }
    let parsed = parse_json(stdout);
    probe_report_from(true, stderr, parsed)
}

proof fn lemma_first_stream_of(streams: Seq<JsonValue>, kind: Seq<char>, i: int)
    requires
        0 <= i,
    ensures
        match first_stream_of(streams, kind, i) {
            Some(v) => i <= v < streams.len() && codec_type(streams[v]) == Some(kind) && forall|j: int|
                i <= j < v ==> codec_type(#[trigger] streams[j]) != Some(kind),
            None => forall|j: int| i <= j < streams.len() ==> codec_type(#[trigger] streams[j]) != Some(kind),
        },
    decreases streams.len() - i,
{
    if i < streams.len() && codec_type(streams[i]) != Some(kind) {
        lemma_first_stream_of(streams, kind, i + 1);
    }
}

/// What a probed profile says about the report: the file has sound exactly when some
/// stream, wherever it stands in the list, is an audio stream; and the frame size is
/// that of the first video stream, cut to 32 bits.
pub proof fn lemma_media_profile_reads_report(probe: JsonValue)
    ensures
        media_profile_spec(probe) is Ok ==> ({
            let p = media_profile_spec(probe)->Ok_0;
            let streams = report_streams(probe)->0;
            &&& report_streams(probe) is Some
            &&& (p.3 <==> exists|i: int| 0 <= i < streams.len() && #[trigger] member_str(streams[i], "codec_type"@) == Some("audio"@))
            &&& exists|v: int|
                0 <= v < streams.len() && #[trigger] member_str(streams[v], "codec_type"@) == Some("video"@)
                && (forall|j: int| 0 <= j < v ==> member_str(#[trigger] streams[j], "codec_type"@) != Some("video"@))
                && member_u64(streams[v], "width"@) is Some && p.0 == member_u64(streams[v], "width"@)->0 as u32
                && member_u64(streams[v], "height"@) is Some && p.1 == member_u64(streams[v], "height"@)->0 as u32
            &&& p.2 == probe_duration(probe)->0
        }),
{
    if media_profile_spec(probe) is Ok {
        let streams = report_streams(probe)->0;
        lemma_first_stream_of(streams, "video"@, 0);
        let v = first_stream_of(streams, "video"@, 0)->0;
        assert(member_str(streams[v], "codec_type"@) == Some("video"@));
        assert forall|j: int| 0 <= j < v implies member_str(#[trigger] streams[j], "codec_type"@) != Some("video"@) by {
            assert(codec_type(streams[j]) != Some("video"@));
        }
        let p = media_profile_spec(probe)->Ok_0;
        assert(p.3 == has_stream_of(streams, "audio"@));
        if p.3 {
            let i = choose|i: int| 0 <= i < streams.len() && codec_type(#[trigger] streams[i]) == Some("audio"@);
            assert(member_str(streams[i], "codec_type"@) == Some("audio"@));
        }
        if exists|i: int| 0 <= i < streams.len() && #[trigger] member_str(streams[i], "codec_type"@) == Some("audio"@) {
            let i = choose|i: int| 0 <= i < streams.len() && #[trigger] member_str(streams[i], "codec_type"@) == Some("audio"@);
            assert(codec_type(streams[i]) == Some("audio"@));
        }
    }
}

/// The duration is `format.duration` when that is a string; otherwise the `duration`
/// of the first entry of `streams` when that is a string; otherwise there is none.
pub proof fn lemma_duration_lookup(probe: JsonValue)
    ensures
        ({
            let from_format = match json_get(probe, "format"@) {
                Some(f) => match json_get(f, "duration"@) {
                    Some(JsonValue::Str(t)) => Some(t@),
                    _ => None,
                },
                None => None,
            };
            let from_stream = match json_get(probe, "streams"@) {
                Some(JsonValue::Array(a)) => if a@.len() > 0 {
                    match json_get(a@[0], "duration"@) {
                        Some(JsonValue::Str(t)) => Some(t@),
                        _ => None,
                    }
                } else {
                    None
                },
                _ => None,
            };
            &&& from_format is Some ==> probe_duration(probe) == Some((DurationSource::Format, from_format->0))
            &&& from_format is None && from_stream is Some ==> probe_duration(probe) == Some(
                (DurationSource::FirstStream, from_stream->0),
            )
            &&& from_format is None && from_stream is None ==> probe_duration(probe) is None
        }),
{
}

} // verus!
