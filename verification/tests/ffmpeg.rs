use demovid::ffmpeg::{
    assemble_clips, check_ffmpeg_output, concat_audio, concat_filter, concat_manifest,
    concat_manifest_name, escape_concat_path, extract_frames, ffprobe_args, generate_silence,
    render_clip, AssembleClip, AssembleError, ConcatInput, RenderStrategy,
};
use demovid::probe::even_dimension;

fn strings(items: &[&str]) -> Vec<String> {
    items.iter().map(|s| s.to_string()).collect()
}

#[test]
fn concat_filter_builds_expected_graph() {
    let filter = concat_filter(
        &[
            ConcatInput {
                video_input: 0,
                audio_input: 0,
            },
            ConcatInput {
                video_input: 1,
                audio_input: 2,
            },
        ],
        1280,
        720,
    );
    assert!(filter.contains("[0:v]scale=1280:720"));
    assert!(filter.contains("[1:v]scale=1280:720"));
    assert!(filter.contains("[2:a]aformat"));
    assert!(filter.contains("concat=n=2:v=1:a=1[v][a]"));
}

#[test]
fn even_dimension_rounds_down_odd_values() {
    assert_eq!(even_dimension(1920), 1920);
    assert_eq!(even_dimension(1919), 1918);
}

#[test]
fn even_dimension_edges() {
    assert_eq!(even_dimension(0), 0);
    assert_eq!(even_dimension(1), 0);
    assert_eq!(even_dimension(u32::MAX), u32::MAX - 1);
}

#[test]
fn concat_filter_single_clip_exact() {
    let filter = concat_filter(&[ConcatInput { video_input: 0, audio_input: 1 }], 640, 360);
    assert_eq!(
        filter,
        "[0:v]scale=640:360:force_original_aspect_ratio=decrease,pad=640:360:(ow-iw)/2:(oh-ih)/2:color=black,setsar=1,format=yuv420p,fps=30[v0];[1:a]aformat=sample_fmts=fltp:sample_rates=48000:channel_layouts=stereo[a0];[v0][a0]concat=n=1:v=1:a=1[v][a]"
    );
}

#[test]
fn concat_filter_no_clips() {
    assert_eq!(concat_filter(&[], 2, 2), "concat=n=0:v=1:a=1[v][a]");
}

#[test]
fn concat_filter_labels_in_order() {
    let inputs: Vec<ConcatInput> = (0..12)
        .map(|i| ConcatInput { video_input: i, audio_input: i })
        .collect();
    let filter = concat_filter(&inputs, 10, 10);
    assert!(filter.ends_with("[v10][a10][v11][a11]concat=n=12:v=1:a=1[v][a]"));
    assert!(filter.contains("[11:a]aformat=sample_fmts=fltp:sample_rates=48000:channel_layouts=stereo[a11]"));
}

#[test]
fn strategy_names() {
    assert_eq!(RenderStrategy::PadAudioToVideo.as_str(), "pad-audio-to-video");
    assert_eq!(RenderStrategy::FreezeLastFrameToAudio.as_str(), "freeze-last-frame-to-audio");
    assert_ne!(
        RenderStrategy::PadAudioToVideo.as_str(),
        RenderStrategy::FreezeLastFrameToAudio.as_str()
    );
}

#[test]
fn ffprobe_arguments() {
    assert_eq!(
        ffprobe_args("/tmp/a.mp4"),
        strings(&["-v", "quiet", "-print_format", "json", "-show_format", "-show_streams", "/tmp/a.mp4"])
    );
}

#[test]
fn frame_extraction_arguments() {
    assert_eq!(
        extract_frames("/c/clip.mp4", "/out", "2"),
        strings(&["-i", "/c/clip.mp4", "-vf", "fps=2", "/out/frame-%04d.png", "-y"])
    );
}

#[test]
fn silence_arguments() {
    assert_eq!(
        generate_silence("2.000000", "s.wav"),
        strings(&[
            "-f", "lavfi", "-i", "anullsrc=r=24000:cl=mono", "-t", "2.000000", "-c:a", "pcm_s16le",
            "s.wav", "-y"
        ])
    );
}

#[test]
fn concat_audio_arguments() {
    assert_eq!(
        concat_audio("/d/.list.txt", "/d/out.wav"),
        strings(&["-f", "concat", "-safe", "0", "-i", "/d/.list.txt", "-c", "copy", "/d/out.wav", "-y"])
    );
}

#[test]
fn escape_replaces_every_quote() {
    assert_eq!(escape_concat_path("/a/it's here"), "/a/it'\\''s here");
    assert_eq!(escape_concat_path("''"), "'\\'''\\''");
    assert_eq!(escape_concat_path("plain"), "plain");
    assert_eq!(escape_concat_path(""), "");
}

/// The concat demuxer's reading of a quoted token.
fn read_token(s: &str) -> String {
    let chars: Vec<char> = s.chars().collect();
    let mut out = String::new();
    let mut quoted = false;
    let mut i = 0;
    while i < chars.len() {
        let c = chars[i];
        if quoted {
            if c == '\'' {
                quoted = false;
            } else {
                out.push(c);
            }
            i += 1;
        } else if c == '\'' {
            quoted = true;
            i += 1;
        } else if c == '\\' && i + 1 < chars.len() {
            out.push(chars[i + 1]);
            i += 2;
        } else {
            out.push(c);
            i += 1;
        }
    }
    out
}

#[test]
fn escaped_path_reads_back() {
    for p in ["/a/it's", "'", "''x''", "no quotes", "", "back\\slash'"] {
        let token = format!("'{}'", escape_concat_path(p));
        assert_eq!(read_token(&token), p);
    }
}

#[test]
fn escape_undone_by_replacing_back() {
    for p in ["/a/it's", "'", "''x''", "no quotes", "", "back\\slash'"] {
        assert_eq!(escape_concat_path(p).replace("'\\''", "'"), p);
    }
    assert_eq!(escape_concat_path("/no/quote here"), "/no/quote here");
}

#[test]
fn manifest_lists_files_in_order() {
    assert_eq!(
        concat_manifest(&strings(&["/a/x.wav", "/a/it's.wav"])),
        "file '/a/x.wav'\nfile '/a/it'\\''s.wav'\n"
    );
    assert_eq!(concat_manifest(&Vec::new()), "\n");
}

#[test]
fn manifest_name_holds_stamp() {
    assert_eq!(concat_manifest_name(1700000000123), ".demovid-concat-1700000000123.txt");
    assert_eq!(concat_manifest_name(0), ".demovid-concat-0.txt");
    assert_eq!(
        concat_manifest_name(u128::MAX),
        ".demovid-concat-340282366920938463463374607431768211455.txt"
    );
}

#[test]
fn ffmpeg_output_judgement() {
    assert_eq!(check_ffmpeg_output(true, "warn", "ffmpeg assemble failed", None), Ok(()));
    assert_eq!(
        check_ffmpeg_output(false, "boom", "ffmpeg assemble failed", None),
        Err("ffmpeg assemble failed: boom".to_string())
    );
    assert_eq!(check_ffmpeg_output(true, "uses videotoolbox", "ctx", Some("videotoolbox")), Ok(()));
    assert_eq!(
        check_ffmpeg_output(true, "software", "ctx", Some("videotoolbox")),
        Err("ctx: expected ffmpeg output to mention videotoolbox, got: software".to_string())
    );
    assert_eq!(
        check_ffmpeg_output(false, "boom", "ctx", Some("boom")),
        Err("ctx: boom".to_string())
    );
}

const PAD_FILTER: &str = "[0:v]scale=trunc(iw/2)*2:trunc(ih/2)*2,setsar=1,format=yuv420p[v];[1:a]aformat=sample_fmts=fltp:sample_rates=48000:channel_layouts=stereo,apad[a]";
const FREEZE_FILTER: &str = "[0:v]tpad=stop_mode=clone:stop_duration=3600,scale=trunc(iw/2)*2:trunc(ih/2)*2,setsar=1,format=yuv420p[v];[1:a]aformat=sample_fmts=fltp:sample_rates=48000:channel_layouts=stereo[a]";

fn render_tail(bitrate: &str) -> Vec<&str> {
    vec![
        "-map", "[v]", "-map", "[a]", "-c:v", "h264_videotoolbox", "-allow_sw", "1", "-b:v", bitrate,
        "-pix_fmt", "yuv420p", "-c:a", "aac", "-b:a", "192k", "-movflags", "+faststart",
    ]
}

#[test]
fn render_pad_stops_at_shortest() {
    let mut expected = vec!["-v", "error", "-i", "v.mp4", "-i", "a.wav", "-filter_complex", PAD_FILTER];
    expected.extend(render_tail("8M"));
    expected.extend(["-shortest", "o.mp4", "-y"]);
    assert_eq!(
        render_clip("v.mp4", "a.wav", "o.mp4", RenderStrategy::PadAudioToVideo, None),
        strings(&expected)
    );
}

#[test]
fn render_freeze_runs_for_audio_duration() {
    let mut expected = vec!["-v", "error", "-i", "v.mp4", "-i", "a.wav", "-filter_complex", FREEZE_FILTER];
    expected.extend(render_tail("8M"));
    expected.extend(["-t", "12.5", "o.mp4", "-y"]);
    assert_eq!(
        render_clip("v.mp4", "a.wav", "o.mp4", RenderStrategy::FreezeLastFrameToAudio, Some("12.5")),
        strings(&expected)
    );
}

fn clip(path: &str, width: u32, height: u32, has_audio: bool, duration: &str) -> AssembleClip {
    AssembleClip {
        path: path.to_string(),
        width,
        height,
        has_audio,
        duration: duration.to_string(),
    }
}

#[test]
fn assemble_needs_a_clip() {
    let r = assemble_clips(&Vec::new(), "out.mp4");
    assert!(matches!(r, Err(AssembleError::NoClips)));
    assert_eq!(AssembleError::NoClips.message(), "at least one clip is required");
}

#[test]
fn assemble_adds_silence_for_silent_clips() {
    let clips = vec![
        clip("/c/a.mp4", 1921, 1081, true, "3"),
        clip("/c/b.mp4", 640, 480, false, "4.5"),
        clip("/c/c.mp4", 640, 480, true, "1"),
    ];
    let args = assemble_clips(&clips, "/o/final.mp4").unwrap();
    let filter = concat_filter(
        &[
            ConcatInput { video_input: 0, audio_input: 0 },
            ConcatInput { video_input: 1, audio_input: 2 },
            ConcatInput { video_input: 3, audio_input: 3 },
        ],
        1920,
        1080,
    );
    let mut expected = vec![
        "-v", "error", "-i", "/c/a.mp4", "-i", "/c/b.mp4", "-f", "lavfi", "-t", "4.5", "-i",
        "anullsrc=r=48000:cl=stereo", "-i", "/c/c.mp4", "-filter_complex", filter.as_str(),
    ];
    expected.extend(render_tail("10M"));
    expected.extend(["/o/final.mp4", "-y"]);
    assert_eq!(args, strings(&expected));
    assert!(filter.contains("[2:a]aformat"));
    assert!(filter.contains("concat=n=3:v=1:a=1[v][a]"));
}
