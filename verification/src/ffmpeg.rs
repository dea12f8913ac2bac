//! The ffmpeg and ffprobe command lines the tool runs, the filter graphs and the
//! concat manifest they read, and the judgement of how a run went.

use vstd::prelude::*;
use crate::probe::{even_dimension, even_down};
use crate::text::{
    contains, occurs_at, replace_all, decimal, join, join_with, push_char, push_decimal, push_str_item, seq_contains, to_chars,
    views,
};

verus! {

/// How a narration track is fitted to a clip of a different length.
#[derive(Clone, Copy, Debug, PartialEq, Eq, Structural)]
pub enum RenderStrategy {
    /// The audio is padded with silence and cut at the video's end.
    PadAudioToVideo,
    /// The video's last frame is held until the audio ends.
    FreezeLastFrameToAudio,
}

/// The name under which a strategy is reported.
pub open spec fn strategy_name(strategy: RenderStrategy) -> Seq<char> {
    match strategy {
        RenderStrategy::PadAudioToVideo => "pad-audio-to-video"@,
        RenderStrategy::FreezeLastFrameToAudio => "freeze-last-frame-to-audio"@,
    }
}

impl RenderStrategy {
    /// The name under which the strategy is reported.
    pub fn as_str(self) -> (r: &'static str)
        ensures
            r@ == strategy_name(self),
            self == RenderStrategy::PadAudioToVideo ==> r@ == "pad-audio-to-video"@,
            self == RenderStrategy::FreezeLastFrameToAudio ==> r@ == "freeze-last-frame-to-audio"@,
    {
        match self {
            RenderStrategy::PadAudioToVideo => "pad-audio-to-video",
            RenderStrategy::FreezeLastFrameToAudio => "freeze-last-frame-to-audio",
        }
    }
}

/// The ffprobe arguments that print a file's format and streams as JSON.
pub fn ffprobe_args(path: &str) -> (r: Vec<String>)
    ensures
        views(r@) == seq!["-v"@, "quiet"@, "-print_format"@, "json"@, "-show_format"@, "-show_streams"@, path@],
{
    let mut a: Vec<String> = Vec::new();
    push_str_item(&mut a, "-v");
    push_str_item(&mut a, "quiet");
    push_str_item(&mut a, "-print_format");
    push_str_item(&mut a, "json");
    push_str_item(&mut a, "-show_format");
    push_str_item(&mut a, "-show_streams");
    push_str_item(&mut a, path);
    a
}

/// The ffmpeg arguments that write frames of `clip` as numbered PNG files into `outdir`,
/// `fps` (frames per second, as text) of them per second.
pub fn extract_frames(clip: &str, outdir: &str, fps: &str) -> (r: Vec<String>)
    ensures
        views(r@) == seq![
            "-i"@, clip@, "-vf"@, "fps="@ + fps@, outdir@ + "/frame-%04d.png"@, "-y"@,
        ],
{
    let mut filter = String::new();
    filter.append("fps=");
    filter.append(fps);
    let mut pattern = String::new();
    pattern.append(outdir);
    pattern.append("/frame-%04d.png");
    let mut a: Vec<String> = Vec::new();
    push_str_item(&mut a, "-i");
    push_str_item(&mut a, clip);
    push_str_item(&mut a, "-vf");
    push_str_item(&mut a, filter.as_str());
    push_str_item(&mut a, pattern.as_str());
    push_str_item(&mut a, "-y");
    a
}

/// The ffmpeg arguments that write `seconds` (as text) of 24 kHz mono silence to `output`
/// as 16-bit PCM.
pub fn generate_silence(seconds: &str, output: &str) -> (r: Vec<String>)
    ensures
        views(r@) == seq![
            "-f"@, "lavfi"@, "-i"@, "anullsrc=r=24000:cl=mono"@, "-t"@, seconds@, "-c:a"@,
            "pcm_s16le"@, output@, "-y"@,
        ],
{
    let mut a: Vec<String> = Vec::new();
    push_str_item(&mut a, "-f");
    push_str_item(&mut a, "lavfi");
    push_str_item(&mut a, "-i");
    push_str_item(&mut a, "anullsrc=r=24000:cl=mono");
    push_str_item(&mut a, "-t");
    push_str_item(&mut a, seconds);
    push_str_item(&mut a, "-c:a");
    push_str_item(&mut a, "pcm_s16le");
    push_str_item(&mut a, output);
    push_str_item(&mut a, "-y");
    a
}

/// The ffmpeg arguments that concatenate the files listed in the manifest at `list`
/// into `output` without re-encoding.
pub fn concat_audio(list: &str, output: &str) -> (r: Vec<String>)
    ensures
        views(r@) == seq![
            "-f"@, "concat"@, "-safe"@, "0"@, "-i"@, list@, "-c"@, "copy"@, output@, "-y"@,
        ],
{
    let mut a: Vec<String> = Vec::new();
    push_str_item(&mut a, "-f");
    push_str_item(&mut a, "concat");
    push_str_item(&mut a, "-safe");
    push_str_item(&mut a, "0");
    push_str_item(&mut a, "-i");
    push_str_item(&mut a, list);
    push_str_item(&mut a, "-c");
    push_str_item(&mut a, "copy");
    push_str_item(&mut a, output);
    push_str_item(&mut a, "-y");
    a
}

/// What a single character becomes inside a single-quoted concat manifest entry:
/// a quote closes the quoting, adds an escaped quote and reopens it.
pub open spec fn escape_char(c: char) -> Seq<char> {
    if c == '\'' {
        seq!['\'', '\\', '\'', '\'']
    } else {
        seq![c]
    }
}

/// A path with every `'` replaced by `'\''`.
pub open spec fn escape_quotes(s: Seq<char>) -> Seq<char>
    decreases s.len(),
{
    if s.len() == 0 {
        Seq::empty()
    } else {
        escape_quotes(s.drop_last()) + escape_char(s.last())
    }
}

/// Escapes a path for a single-quoted entry of an ffmpeg concat manifest.
pub fn escape_concat_path(path: &str) -> (r: String)
    ensures
        r@ == escape_quotes(path@),
{
    let v = to_chars(path);
    let mut r = String::new();
    let mut i: usize = 0;
    while i < v.len()
        invariant
            v@ == path@,
            i <= v.len(),
            r@ == escape_quotes(v@.take(i as int)),
        decreases v.len() - i,
    {
        assert(v@.take(i + 1).drop_last() =~= v@.take(i as int));
        let c = v[i];
        if c == '\'' {
            r.append("'\\''");
            proof {
                reveal_strlit("'\\''");
            }
            assert(r@ =~= escape_quotes(v@.take(i + 1)));
        } else {
            push_char(&mut r, c);
            assert(r@ =~= escape_quotes(v@.take(i + 1)));
        }
        i += 1;
    }
    assert(v@.take(v.len() as int) =~= v@);
    r
}

/// One manifest line: `file '<escaped path>'`.
pub open spec fn manifest_line(path: Seq<char>) -> Seq<char> {
    "file '"@ + escape_quotes(path) + "'"@
}

/// The manifest lines for the given paths, in order.
pub open spec fn manifest_lines(paths: Seq<Seq<char>>) -> Seq<Seq<char>> {
    paths.map_values(|p: Seq<char>| manifest_line(p))
}

/// The concat manifest naming `files` in order: one line per file, each line ended by
/// a newline.
pub fn concat_manifest(files: &Vec<String>) -> (r: String)
    ensures
        r@ == join_with(manifest_lines(views(files@)), "\n"@) + "\n"@,
        files@.len() > 0 ==> r@ == Seq::new(
            files@.len(),
            |k: int| "file '"@ + escape_quotes(files@[k]@) + "'"@ + "\n"@,
        ).flatten(),
        files@.len() == 0 ==> r@ == "\n"@,
{
    let mut lines: Vec<String> = Vec::new();
    let mut i: usize = 0;
    while i < files.len()
        invariant
            i <= files.len(),
            views(lines@) == manifest_lines(views(files@.take(i as int))),
        decreases files.len() - i,
    {
        let mut line = String::new();
        line.append("file '");
        let escaped = escape_concat_path(files[i].as_str());
        line.append(escaped.as_str());
        line.append("'");
        let ghost before = lines@;
        lines.push(line);
        proof {
            assert(views(files@.take(i + 1)) =~= views(files@.take(i as int)).push(files@[i as int]@));
            assert(line@ == manifest_line(files@[i as int]@));
            assert(views(lines@) =~= views(before).push(line@));
            assert(views(lines@) =~= manifest_lines(views(files@.take(i + 1))));
        }
        i += 1;
    }
    assert(files@.take(files.len() as int) =~= files@);
    let mut r = join(&lines, "\n");
    r.append("\n");
    proof {
        lemma_manifest_lines_in_order(views(files@));
        assert(Seq::new(files@.len(), |k: int| "file '"@ + escape_quotes(files@[k]@) + "'"@ + "\n"@)
            =~= Seq::new(views(files@).len(), |k: int| "file '"@ + escape_quotes(views(files@)[k]) + "'"@ + "\n"@));
    }
    r
}

/// The name of the temporary concat manifest written at the time `stamp_millis`
/// (milliseconds since the Unix epoch).
pub fn concat_manifest_name(stamp_millis: u128) -> (r: String)
    ensures
        r@ == ".demovid-concat-"@ + decimal(stamp_millis as nat) + ".txt"@,
{
    let mut r = String::new();
    r.append(".demovid-concat-");
    push_decimal(&mut r, stamp_millis);
    r.append(".txt");
    r
}

/// The message of a failed ffmpeg run: the context, then what ffmpeg wrote to stderr.
pub open spec fn failure_message(context: Seq<char>, stderr: Seq<char>) -> Seq<char> {
    context + ": "@ + stderr
}

/// The message when ffmpeg succeeded but its stderr lacks the text it had to mention.
pub open spec fn missing_text_message(context: Seq<char>, required: Seq<char>, stderr: Seq<char>) -> Seq<char> {
    context + ": expected ffmpeg output to mention "@ + required + ", got: "@ + stderr
}

/// Judges a finished ffmpeg run from its exit status and stderr (decoded as text):
/// a failing status is an error; so is a missing mention of `required_stderr_text`.
pub fn check_ffmpeg_output(
    success: bool,
    stderr: &str,
    context_msg: &str,
    required_stderr_text: Option<&str>,
) -> (r: Result<(), String>)
    ensures
        !success ==> (r matches Err(m) && m@ == failure_message(context_msg@, stderr@)),
        !success ==> (r matches Err(m) && m@ == context_msg@ + ": "@ + stderr@),
        success && required_stderr_text is Some && !seq_contains(stderr@, required_stderr_text->0@)
            ==> (r matches Err(m) && m@ == context_msg@ + ": expected ffmpeg output to mention "@
            + required_stderr_text->0@ + ", got: "@ + stderr@),
        success && required_stderr_text is None ==> r is Ok,
        success && required_stderr_text is Some && seq_contains(stderr@, required_stderr_text->0@)
            ==> r is Ok,
        success && required_stderr_text is Some && !seq_contains(stderr@, required_stderr_text->0@)
            ==> (r matches Err(m) && m@ == missing_text_message(
            context_msg@,
            required_stderr_text->0@,
            stderr@,
        )),
{
    if !success {
        let mut m = String::new();
        m.append(context_msg);
        m.append(": ");
        m.append(stderr);
        return Err(m);
    }
    if let Some(required) = required_stderr_text {
        if !contains(stderr, required) {
            let mut m = String::new();
            m.append(context_msg);
            m.append(": expected ffmpeg output to mention ");
            m.append(required);
            m.append(", got: ");
            m.append(stderr);
            return Err(m);
        }
    }
    Ok(())
}

/// The filter graph that fits the audio of input 1 to the video of input 0: both
/// scale the video to even dimensions in yuv420p and resample the audio to 48 kHz
/// stereo; padding appends silence to the audio, freezing clones the last frame.
pub open spec fn render_filter(strategy: RenderStrategy) -> Seq<char> {
    match strategy {
        RenderStrategy::PadAudioToVideo => "[0:v]scale=trunc(iw/2)*2:trunc(ih/2)*2,setsar=1,format=yuv420p[v];[1:a]aformat=sample_fmts=fltp:sample_rates=48000:channel_layouts=stereo,apad[a]"@,
        RenderStrategy::FreezeLastFrameToAudio => "[0:v]tpad=stop_mode=clone:stop_duration=3600,scale=trunc(iw/2)*2:trunc(ih/2)*2,setsar=1,format=yuv420p[v];[1:a]aformat=sample_fmts=fltp:sample_rates=48000:channel_layouts=stereo[a]"@,
    }
}

/// The encoder settings shared by rendering, with the given video bit rate.
pub open spec fn encoder_args(video_bitrate: Seq<char>) -> Seq<Seq<char>> {
    seq![
        "-map"@, "[v]"@, "-map"@, "[a]"@, "-c:v"@, "h264_videotoolbox"@, "-allow_sw"@, "1"@,
        "-b:v"@, video_bitrate, "-pix_fmt"@, "yuv420p"@, "-c:a"@, "aac"@, "-b:a"@, "192k"@,
        "-movflags"@, "+faststart"@,
    ]
}

/// The ffmpeg arguments that render `video` with `audio` into `output`. Padding stops at
/// the shorter stream (`-shortest`); freezing stops after `audio_duration` seconds.
pub open spec fn render_clip_args(
    video: Seq<char>,
    audio: Seq<char>,
    output: Seq<char>,
    strategy: RenderStrategy,
    audio_duration: Seq<char>,
) -> Seq<Seq<char>> {
    seq!["-v"@, "error"@, "-i"@, video, "-i"@, audio, "-filter_complex"@, render_filter(strategy)]
        + encoder_args("8M"@)
        + match strategy {
            RenderStrategy::PadAudioToVideo => seq!["-shortest"@],
            RenderStrategy::FreezeLastFrameToAudio => seq!["-t"@, audio_duration],
        }
        + seq![output, "-y"@]
}

/// Appends the shared encoder settings to an argument list.
fn push_encoder_args(a: &mut Vec<String>, video_bitrate: &str)
    ensures
        views(final(a)@) == views(old(a)@) + encoder_args(video_bitrate@),
{
    let ghost start = views(a@);
    push_str_item(a, "-map");
    push_str_item(a, "[v]");
    push_str_item(a, "-map");
    push_str_item(a, "[a]");
    push_str_item(a, "-c:v");
    push_str_item(a, "h264_videotoolbox");
    push_str_item(a, "-allow_sw");
    push_str_item(a, "1");
    push_str_item(a, "-b:v");
    push_str_item(a, video_bitrate);
    push_str_item(a, "-pix_fmt");
    push_str_item(a, "yuv420p");
    push_str_item(a, "-c:a");
    push_str_item(a, "aac");
    push_str_item(a, "-b:a");
    push_str_item(a, "192k");
    push_str_item(a, "-movflags");
    push_str_item(a, "+faststart");
    assert(views(a@) =~= start + encoder_args(video_bitrate@));
}

/// The ffmpeg arguments that render `video` with the narration `audio` into `output`
/// using `strategy`. Freezing the last frame needs the audio's duration in seconds
/// (as text); padding does not read it.
pub fn render_clip(
    video: &str,
    audio: &str,
    output: &str,
    strategy: RenderStrategy,
    audio_duration: Option<&str>,
) -> (r: Vec<String>)
    requires
        strategy == RenderStrategy::FreezeLastFrameToAudio ==> audio_duration is Some,
    ensures
        views(r@)[3] == video@ && views(r@)[5] == audio@,
        views(r@)[r@.len() - 2] == output@,
        strategy == RenderStrategy::FreezeLastFrameToAudio ==> r@.len() == 30 && views(r@)[27]
            == audio_duration->0@,
        views(r@) == render_clip_args(
            video@,
            audio@,
            output@,
            strategy,
            match audio_duration {
                Some(d) => d@,
                None => Seq::empty(),
            },
        ),
{
    let filter: &str = match strategy {
        RenderStrategy::PadAudioToVideo => "[0:v]scale=trunc(iw/2)*2:trunc(ih/2)*2,setsar=1,format=yuv420p[v];[1:a]aformat=sample_fmts=fltp:sample_rates=48000:channel_layouts=stereo,apad[a]",
        RenderStrategy::FreezeLastFrameToAudio => "[0:v]tpad=stop_mode=clone:stop_duration=3600,scale=trunc(iw/2)*2:trunc(ih/2)*2,setsar=1,format=yuv420p[v];[1:a]aformat=sample_fmts=fltp:sample_rates=48000:channel_layouts=stereo[a]",
    };
    let mut a: Vec<String> = Vec::new();
    push_str_item(&mut a, "-v");
    push_str_item(&mut a, "error");
    push_str_item(&mut a, "-i");
    push_str_item(&mut a, video);
    push_str_item(&mut a, "-i");
    push_str_item(&mut a, audio);
    push_str_item(&mut a, "-filter_complex");
    push_str_item(&mut a, filter);
    let ghost head = views(a@);
    push_encoder_args(&mut a, "8M");
    let ghost mid = views(a@);
    match strategy {
        RenderStrategy::PadAudioToVideo => {
            push_str_item(&mut a, "-shortest");
        },
        RenderStrategy::FreezeLastFrameToAudio => {
            push_str_item(&mut a, "-t");
            match audio_duration {
                Some(d) => push_str_item(&mut a, d),
                None => {},
            }
        },
    }
    let ghost tail = views(a@);
    push_str_item(&mut a, output);
    push_str_item(&mut a, "-y");
    proof {
        let d = match audio_duration {
            Some(d) => d@,
            None => Seq::empty(),
        };
        let choice = match strategy {
            RenderStrategy::PadAudioToVideo => seq!["-shortest"@],
            RenderStrategy::FreezeLastFrameToAudio => seq!["-t"@, d],
        };
        assert(head =~= seq!["-v"@, "error"@, "-i"@, video@, "-i"@, audio@, "-filter_complex"@, render_filter(strategy)]);
        assert(tail =~= mid + choice);
        assert(views(a@) =~= render_clip_args(video@, audio@, output@, strategy, d));
        lemma_render_clip_args_shape(video@, audio@, output@, strategy, d);
    }
    a
}

/// The inputs that one assembled clip draws from: the input whose video is used and
/// the input whose audio is used (the clip itself, or a silent source added for it).
#[derive(Clone, Copy, Debug, PartialEq, Eq, Structural)]
pub struct ConcatInput {
    pub video_input: usize,
    pub audio_input: usize,
}

/// The filter for clip number `index`: its video scaled to fit `width`×`height`,
/// letterboxed in black, square pixels, yuv420p at 30 frames per second.
pub open spec fn video_part(input: ConcatInput, index: nat, width: u32, height: u32) -> Seq<char> {
    "["@ + decimal(input.video_input as nat) + ":v]scale="@ + decimal(width as nat) + ":"@
        + decimal(height as nat) + ":force_original_aspect_ratio=decrease,pad="@
        + decimal(width as nat) + ":"@ + decimal(height as nat)
        + ":(ow-iw)/2:(oh-ih)/2:color=black,setsar=1,format=yuv420p,fps=30[v"@ + decimal(index)
        + "]"@
}

/// The filter for the audio of clip number `index`: 48 kHz stereo in planar float.
pub open spec fn audio_part(input: ConcatInput, index: nat) -> Seq<char> {
    "["@ + decimal(input.audio_input as nat)
        + ":a]aformat=sample_fmts=fltp:sample_rates=48000:channel_layouts=stereo[a"@
        + decimal(index) + "]"@
}

/// The labels `[v0][a0][v1][a1]...` of the first `n` clips.
pub open spec fn stream_labels(n: nat) -> Seq<char>
    decreases n,
{
    if n == 0 {
        Seq::empty()
    } else {
        stream_labels((n - 1) as nat) + "[v"@ + decimal((n - 1) as nat) + "][a"@ + decimal(
            (n - 1) as nat,
        ) + "]"@
    }
}

/// The video and audio filters of every clip, in clip order.
pub open spec fn input_parts(inputs: Seq<ConcatInput>, width: u32, height: u32) -> Seq<Seq<char>>
    decreases inputs.len(),
{
    if inputs.len() == 0 {
        Seq::empty()
    } else {
        let n = (inputs.len() - 1) as nat;
        input_parts(inputs.drop_last(), width, height).push(
            video_part(inputs.last(), n, width, height),
        ).push(audio_part(inputs.last(), n))
    }
}

/// The final filter, which concatenates all labelled streams into `[v][a]`.
pub open spec fn concat_part(n: nat) -> Seq<char> {
    stream_labels(n) + "concat=n="@ + decimal(n) + ":v=1:a=1[v][a]"@
}

/// The whole filter graph: every clip's filters, then the concatenation, separated by `;`.
pub open spec fn concat_filter_spec(inputs: Seq<ConcatInput>, width: u32, height: u32) -> Seq<char> {
    join_with(input_parts(inputs, width, height).push(concat_part(inputs.len())), ";"@)
}

fn video_part_string(input: ConcatInput, index: usize, width: u32, height: u32) -> (r: String)
    ensures
        r@ == video_part(input, index as nat, width, height),
{
    let mut r = String::new();
    r.append("[");
    push_decimal(&mut r, input.video_input as u128);
    r.append(":v]scale=");
    push_decimal(&mut r, width as u128);
    r.append(":");
    push_decimal(&mut r, height as u128);
    r.append(":force_original_aspect_ratio=decrease,pad=");
    push_decimal(&mut r, width as u128);
    r.append(":");
    push_decimal(&mut r, height as u128);
    r.append(":(ow-iw)/2:(oh-ih)/2:color=black,setsar=1,format=yuv420p,fps=30[v");
    push_decimal(&mut r, index as u128);
    r.append("]");
    r
}

fn audio_part_string(input: ConcatInput, index: usize) -> (r: String)
    ensures
        r@ == audio_part(input, index as nat),
{
    let mut r = String::new();
    r.append("[");
    push_decimal(&mut r, input.audio_input as u128);
    r.append(":a]aformat=sample_fmts=fltp:sample_rates=48000:channel_layouts=stereo[a");
    push_decimal(&mut r, index as u128);
    r.append("]");
    r
}

/// The filter graph that scales every clip to `width`×`height` and concatenates the
/// clips' video and audio streams, in order.
pub fn concat_filter(inputs: &[ConcatInput], width: u32, height: u32) -> (r: String)
    ensures
        r@ == concat_filter_spec(inputs@, width, height),
        forall|k: int|
            #![trigger inputs@[k]]
            0 <= k < inputs@.len() ==> seq_contains(
                r@,
                "["@ + decimal(inputs@[k].video_input as nat) + ":v]scale="@ + decimal(width as nat) + ":"@
                + decimal(height as nat) + ":force_original_aspect_ratio=decrease,pad="@
                + decimal(width as nat) + ":"@ + decimal(height as nat)
                + ":(ow-iw)/2:(oh-ih)/2:color=black,setsar=1,format=yuv420p,fps=30[v"@ + decimal(k as nat)
                + "]"@,
            ) && seq_contains(
                r@,
                "["@ + decimal(inputs@[k].audio_input as nat)
                + ":a]aformat=sample_fmts=fltp:sample_rates=48000:channel_layouts=stereo[a"@
                + decimal(k as nat) + "]"@,
            ),
{
    let mut parts: Vec<String> = Vec::new();
    let mut labels = String::new();
    let mut i: usize = 0;
    while i < inputs.len()
        invariant
            i <= inputs@.len(),
            views(parts@) == input_parts(inputs@.take(i as int), width, height),
            labels@ == stream_labels(i as nat),
        decreases inputs.len() - i,
    {
        let input = inputs[i];
        let ghost before = parts@;
        parts.push(video_part_string(input, i, width, height));
        parts.push(audio_part_string(input, i));
        labels.append("[v");
        push_decimal(&mut labels, i as u128);
        labels.append("][a");
        push_decimal(&mut labels, i as u128);
        labels.append("]");
        proof {
            let t = inputs@.take(i + 1);
            assert(t.drop_last() =~= inputs@.take(i as int));
            assert(t.last() == input);
            assert(views(parts@) =~= views(before).push(video_part(input, i as nat, width, height)).push(
                audio_part(input, i as nat),
            ));
        }
        i += 1;
    }
    let mut last = String::new();
    last.append(labels.as_str());
    last.append("concat=n=");
    push_decimal(&mut last, inputs.len() as u128);
    last.append(":v=1:a=1[v][a]");
    let ghost before = parts@;
    parts.push(last);
    proof {
        assert(inputs@.take(inputs@.len() as int) =~= inputs@);
        assert(views(parts@) =~= views(before).push(concat_part(inputs@.len())));
    }
    let r = join(&parts, ";");
    proof {
        assert forall|k: int|
            #![trigger inputs@[k]]
            0 <= k < inputs@.len() implies seq_contains(
                r@,
                "["@ + decimal(inputs@[k].video_input as nat) + ":v]scale="@ + decimal(width as nat) + ":"@
                + decimal(height as nat) + ":force_original_aspect_ratio=decrease,pad="@
                + decimal(width as nat) + ":"@ + decimal(height as nat)
                + ":(ow-iw)/2:(oh-ih)/2:color=black,setsar=1,format=yuv420p,fps=30[v"@ + decimal(k as nat)
                + "]"@,
            ) && seq_contains(
                r@,
                "["@ + decimal(inputs@[k].audio_input as nat)
                + ":a]aformat=sample_fmts=fltp:sample_rates=48000:channel_layouts=stereo[a"@
                + decimal(k as nat) + "]"@,
            ) by {
            lemma_concat_filter_reads_each_clip(inputs@, width, height, k);
        }
    }
    r
}

/// A clip to assemble, with what was probed of it: its frame size, whether it has
/// sound, and its duration in seconds (as text) for the silence that stands in when it
/// has none.
pub struct AssembleClip {
    pub path: String,
    pub width: u32,
    pub height: u32,
    pub has_audio: bool,
    pub duration: String,
}

/// The input arguments that one clip adds: the clip itself, and a silent source of the
/// clip's duration when the clip has no sound.
pub open spec fn clip_input_args(c: AssembleClip) -> Seq<Seq<char>> {
    seq!["-i"@, c.path@] + if c.has_audio {
        Seq::empty()
    } else {
        seq!["-f"@, "lavfi"@, "-t"@, c.duration@, "-i"@, "anullsrc=r=48000:cl=stereo"@]
    }
}

/// The input arguments of all clips, in order.
pub open spec fn input_args(clips: Seq<AssembleClip>) -> Seq<Seq<char>>
    decreases clips.len(),
{
    if clips.len() == 0 {
        Seq::empty()
    } else {
        input_args(clips.drop_last()) + clip_input_args(clips.last())
    }
}

/// The number of inputs the clips open: one per clip, plus one per silent clip.
pub open spec fn input_count(clips: Seq<AssembleClip>) -> nat
    decreases clips.len(),
{
    if clips.len() == 0 {
        0
    } else {
        input_count(clips.drop_last()) + if clips.last().has_audio {
            1nat
        } else {
            2nat
        }
    }
}

/// Which inputs each clip draws its video and audio from, given that inputs are opened
/// in clip order with each clip's silent source right after the clip.
pub open spec fn concat_inputs(clips: Seq<AssembleClip>) -> Seq<ConcatInput>
    decreases clips.len(),
{
    if clips.len() == 0 {
        Seq::empty()
    } else {
        let k = input_count(clips.drop_last());
        concat_inputs(clips.drop_last()).push(
            ConcatInput {
                video_input: k as usize,
                audio_input: (if clips.last().has_audio {
                    k
                } else {
                    k + 1
                }) as usize,
            },
        )
    }
}

/// The ffmpeg arguments that assemble `clips` into `output`: every clip scaled to the
/// first clip's size rounded down to even, silent clips given silence, all concatenated.
pub open spec fn assemble_args(clips: Seq<AssembleClip>, output: Seq<char>) -> Seq<Seq<char>> {
    seq!["-v"@, "error"@] + input_args(clips) + seq![
        "-filter_complex"@,
        concat_filter_spec(concat_inputs(clips), even_down(clips[0].width), even_down(clips[0].height)),
    ] + encoder_args("10M"@) + seq![output, "-y"@]
}

/// Why clips cannot be assembled.
#[derive(Clone, Copy, Debug, PartialEq, Eq, Structural)]
pub enum AssembleError {
    NoClips,
}

impl AssembleError {
    /// The message shown to the user.
    pub fn message(&self) -> (r: &'static str)
        ensures
            r@ == "at least one clip is required"@,
    {
        match self {
            AssembleError::NoClips => "at least one clip is required",
        }
    }
}

proof fn lemma_input_count_bound(clips: Seq<AssembleClip>)
    ensures
        input_count(clips) <= 2 * clips.len(),
        concat_inputs(clips).len() == clips.len(),
    decreases clips.len(),
{
    if clips.len() > 0 {
        lemma_input_count_bound(clips.drop_last());
    }
}

/// The ffmpeg arguments that concatenate `clips`, in order, into one video at `output`.
pub fn assemble_clips(clips: &Vec<AssembleClip>, output: &str) -> (r: Result<Vec<String>, AssembleError>)
    requires
        2 * clips@.len() <= usize::MAX,
    ensures
        clips@.len() == 0 ==> r == Err::<Vec<String>, _>(AssembleError::NoClips),
        clips@.len() > 0 ==> (r matches Ok(a) && views(a@) == assemble_args(clips@, output@)),
{
    if clips.len() == 0 {
        return Err(AssembleError::NoClips);
    }
    let width = even_dimension(clips[0].width);
    let height = even_dimension(clips[0].height);
    let mut args: Vec<String> = Vec::new();
    push_str_item(&mut args, "-v");
    push_str_item(&mut args, "error");
    let mut inputs: Vec<ConcatInput> = Vec::new();
    let mut next_input_index: usize = 0;
    let mut i: usize = 0;
    while i < clips.len()
        invariant
            2 * clips@.len() <= usize::MAX,
            i <= clips@.len(),
            next_input_index == input_count(clips@.take(i as int)),
            inputs@ == concat_inputs(clips@.take(i as int)),
            views(args@) == seq!["-v"@, "error"@] + input_args(clips@.take(i as int)),
        decreases clips.len() - i,
    {
        proof {
            let t = clips@.take(i + 1);
            assert(t.drop_last() =~= clips@.take(i as int));
            lemma_input_count_bound(clips@.take(i as int));
        }
        let clip = &clips[i];
        let ghost before = views(args@);
        push_str_item(&mut args, "-i");
        push_str_item(&mut args, clip.path.as_str());
        let video_input = next_input_index;
        next_input_index += 1;
        let audio_input = if clip.has_audio {
            video_input
        } else {
            push_str_item(&mut args, "-f");
            push_str_item(&mut args, "lavfi");
            push_str_item(&mut args, "-t");
            push_str_item(&mut args, clip.duration.as_str());
            push_str_item(&mut args, "-i");
            push_str_item(&mut args, "anullsrc=r=48000:cl=stereo");
            let silent_input = next_input_index;
            next_input_index += 1;
            silent_input
        };
        inputs.push(ConcatInput { video_input, audio_input });
        proof {
            assert(views(args@) =~= before + clip_input_args(*clip));
        }
        i += 1;
    }
    proof {
        assert(clips@.take(clips@.len() as int) =~= clips@);
    }
    let filter = concat_filter(inputs.as_slice(), width, height);
    push_str_item(&mut args, "-filter_complex");
    push_str_item(&mut args, filter.as_str());
    let ghost mid = views(args@);
    push_encoder_args(&mut args, "10M");
    push_str_item(&mut args, output);
    push_str_item(&mut args, "-y");
    proof {
        assert(views(args@) =~= assemble_args(clips@, output@));
    }
    Ok(args)
}

/// The two strategies are reported under different names.
pub proof fn lemma_strategy_names_distinct()
    ensures
        strategy_name(RenderStrategy::PadAudioToVideo) != strategy_name(RenderStrategy::FreezeLastFrameToAudio),
{
    reveal_strlit("pad-audio-to-video");
    reveal_strlit("freeze-last-frame-to-audio");
    assert(strategy_name(RenderStrategy::PadAudioToVideo).len() != strategy_name(
        RenderStrategy::FreezeLastFrameToAudio,
    ).len());
}

/// How ffmpeg's concat demuxer reads a quoted token: inside single quotes every
/// character stands for itself up to the closing quote; outside, a quote opens quoting
/// and a backslash makes the next character literal.
pub open spec fn read_token(s: Seq<char>, quoted: bool) -> Seq<char>
    decreases s.len(),
{
    if s.len() == 0 {
        Seq::empty()
    } else if quoted {
        if s[0] == '\'' {
            read_token(s.drop_first(), false)
        } else {
            seq![s[0]] + read_token(s.drop_first(), true)
        }
    } else if s[0] == '\'' {
        read_token(s.drop_first(), true)
    } else if s[0] == '\\' && s.len() >= 2 {
        seq![s[1]] + read_token(s.skip(2), false)
    } else {
        seq![s[0]] + read_token(s.drop_first(), false)
    }
}

proof fn lemma_escape_quotes_front(p: Seq<char>)
    requires
        p.len() > 0,
    ensures
        escape_quotes(p) == escape_char(p[0]) + escape_quotes(p.drop_first()),
    decreases p.len(),
{
    if p.len() == 1 {
        assert(p.drop_first() =~= Seq::<char>::empty());
        assert(p.drop_last() =~= Seq::<char>::empty());
        assert(escape_quotes(p) =~= escape_char(p[0]) + escape_quotes(p.drop_first()));
    } else {
        lemma_escape_quotes_front(p.drop_last());
        assert(p.drop_last().drop_first() =~= p.drop_first().drop_last());
        assert(p.drop_first().last() == p.last());
        assert(escape_quotes(p) =~= escape_char(p[0]) + escape_quotes(p.drop_first()));
    }
}

proof fn lemma_read_escaped(p: Seq<char>, rest: Seq<char>)
    ensures
        read_token(escape_quotes(p) + seq!['\''] + rest, true) == p + read_token(rest, false),
    decreases p.len(),
{
    if p.len() == 0 {
        let s = escape_quotes(p) + seq!['\''] + rest;
        assert(s =~= seq!['\''] + rest);
        assert(s.drop_first() =~= rest);
        assert(p + read_token(rest, false) =~= read_token(rest, false));
    } else {
        lemma_escape_quotes_front(p);
        lemma_read_escaped(p.drop_first(), rest);
        let tail = escape_quotes(p.drop_first()) + seq!['\''] + rest;
        let s = escape_quotes(p) + seq!['\''] + rest;
        assert(s =~= escape_char(p[0]) + tail);
        if p[0] == '\'' {
            let s1 = s.drop_first();
            assert(s1 =~= seq!['\\', '\'', '\''] + tail);
            assert(s1.skip(2) =~= seq!['\''] + tail);
            assert((seq!['\''] + tail).drop_first() =~= tail);
            assert(read_token(s1, false) == seq!['\''] + read_token(s1.skip(2), false));
            assert(read_token(seq!['\''] + tail, false) == read_token(tail, true));
        } else {
            assert(s.drop_first() =~= tail);
        }
        assert(p =~= seq![p[0]] + p.drop_first());
        assert(read_token(s, true) =~= p + read_token(rest, false));
    }
}

/// An escaped path written between single quotes, as a manifest line writes it, reads
/// back as the path itself.
pub proof fn lemma_escape_round_trip(path: Seq<char>)
    ensures
        read_token(seq!['\''] + escape_quotes(path) + seq!['\''], false) == path,
{
    let s = seq!['\''] + escape_quotes(path) + seq!['\''];
    assert(s.drop_first() =~= escape_quotes(path) + seq!['\''] + Seq::<char>::empty());
    lemma_read_escaped(path, Seq::empty());
    assert(path + read_token(Seq::<char>::empty(), false) =~= path);
}

/// Every stream the assembly filter graph reads is an input the command line opens,
/// and no two clips share one: clip `k` reads its video from an input of its own and its
/// audio from that same input when it has sound, else from the silent input opened right
/// after it; and all of clip `k`'s inputs come before those of any later clip.
pub proof fn lemma_assembly_inputs(clips: Seq<AssembleClip>)
    requires
        2 * clips.len() <= usize::MAX,
    ensures
        concat_inputs(clips).len() == clips.len(),
        forall|k: int|
            0 <= k < clips.len() ==> {
                let c = #[trigger] concat_inputs(clips)[k];
                &&& c.video_input < input_count(clips)
                &&& c.audio_input < input_count(clips)
                &&& (clips[k].has_audio ==> c.audio_input == c.video_input)
                &&& (!clips[k].has_audio ==> c.audio_input == c.video_input + 1)
            },
        forall|k: int, j: int|
            0 <= k < j < clips.len() ==> #[trigger] concat_inputs(clips)[k].audio_input
                < #[trigger] concat_inputs(clips)[j].video_input,
    decreases clips.len(),
{
    lemma_input_count_bound(clips);
    if clips.len() > 0 {
        let prev = clips.drop_last();
        lemma_assembly_inputs(prev);
        lemma_input_count_bound(prev);
        let n = clips.len() - 1;
        assert forall|k: int| 0 <= k < n implies #[trigger] clips[k] == prev[k] by {}
        assert forall|k: int| 0 <= k < n implies #[trigger] concat_inputs(clips)[k] == concat_inputs(prev)[k] by {}
    }
}

/// Replacing each escape sequence `'\''` of an escaped path back by `'` gives the path.
pub proof fn lemma_unescape_round_trip(path: Seq<char>)
    ensures
        replace_all(escape_quotes(path), "'\\''"@, "'"@) == path,
    decreases path.len(),
{
    reveal_strlit("'\\''");
    reveal_strlit("'");
    let pat = "'\\''"@;
    let rep = "'"@;
    let e = escape_quotes(path);
    if path.len() == 0 {
        assert(e.len() == 0);
        assert(replace_all(e, pat, rep) == e);
        assert(e =~= path);
    } else {
        lemma_escape_quotes_front(path);
        lemma_unescape_round_trip(path.drop_first());
        let tail = escape_quotes(path.drop_first());
        assert(e == escape_char(path[0]) + tail);
        if path[0] == '\'' {
            assert(e.subrange(0, 4) =~= pat);
            assert(e.subrange(4, e.len() as int) =~= tail);
            assert(replace_all(e, pat, rep) == rep + replace_all(tail, pat, rep));
        } else {
            assert(e[0] == path[0]);
            assert(e.drop_first() =~= tail);
            if e.len() < pat.len() {
                assert(tail.len() < pat.len());
                assert(replace_all(tail, pat, rep) == tail);
            } else {
                assert(e.subrange(0, 4)[0] != pat[0]);
            }
            assert(replace_all(e, pat, rep) == seq![e[0]] + replace_all(tail, pat, rep));
        }
        assert(path =~= seq![path[0]] + path.drop_first());
    }
}

/// A path without single quotes is written into the manifest unchanged.
pub proof fn lemma_escape_without_quotes(path: Seq<char>)
    requires
        forall|i: int| 0 <= i < path.len() ==> path[i] != '\'',
    ensures
        escape_quotes(path) == path,
    decreases path.len(),
{
    if path.len() > 0 {
        lemma_escape_without_quotes(path.drop_last());
        assert(path =~= path.drop_last().push(path.last()));
        assert(escape_quotes(path) =~= path);
    }
}

/// The render command opens the video as input 0 and the audio as input 1, each by
/// exactly the path given, and writes exactly the output path given, overwriting it;
/// padding ends the output with the shorter stream, freezing gives it the audio's
/// duration.
pub proof fn lemma_render_clip_args_shape(
    video: Seq<char>,
    audio: Seq<char>,
    output: Seq<char>,
    strategy: RenderStrategy,
    audio_duration: Seq<char>,
)
    ensures
        ({
            let a = render_clip_args(video, audio, output, strategy, audio_duration);
            &&& a[2] == "-i"@ && a[3] == video
            &&& a[4] == "-i"@ && a[5] == audio
            &&& a[a.len() - 2] == output && a[a.len() - 1] == "-y"@
            &&& strategy == RenderStrategy::PadAudioToVideo ==> a.len() == 29 && a[26] == "-shortest"@
            &&& strategy == RenderStrategy::FreezeLastFrameToAudio ==> a.len() == 30 && a[26] == "-t"@
                && a[27] == audio_duration
        }),
{
}

proof fn lemma_contains_in_concat(a: Seq<char>, b: Seq<char>, x: Seq<char>)
    ensures
        seq_contains(a, x) ==> seq_contains(a + b, x),
        seq_contains(b, x) ==> seq_contains(a + b, x),
{
    if seq_contains(a, x) {
        let i = choose|i: int| occurs_at(a, x, i);
        assert((a + b).subrange(i, i + x.len()) =~= a.subrange(i, i + x.len()));
        assert(occurs_at(a + b, x, i));
    }
    if seq_contains(b, x) {
        let i = choose|i: int| occurs_at(b, x, i);
        assert((a + b).subrange(a.len() + i, a.len() + i + x.len()) =~= b.subrange(i, i + x.len()));
        assert(occurs_at(a + b, x, a.len() + i));
    }
}

proof fn lemma_join_contains_part(parts: Seq<Seq<char>>, sep: Seq<char>, i: int)
    requires
        0 <= i < parts.len(),
    ensures
        seq_contains(join_with(parts, sep), parts[i]),
    decreases parts.len(),
{
    if parts.len() == 1 {
        assert(parts[0].subrange(0, parts[0].len() as int) =~= parts[0]);
        assert(occurs_at(parts[0], parts[0], 0));
    } else {
        let j = join_with(parts.drop_last(), sep);
        if i == parts.len() - 1 {
            assert(parts.last().subrange(0, parts.last().len() as int) =~= parts.last());
            assert(occurs_at(parts.last(), parts.last(), 0));
            lemma_contains_in_concat(j + sep, parts.last(), parts[i]);
        } else {
            lemma_join_contains_part(parts.drop_last(), sep, i);
            lemma_contains_in_concat(j, sep, parts[i]);
            lemma_contains_in_concat(j + sep, parts.last(), parts[i]);
        }
    }
}

proof fn lemma_input_parts_len(inputs: Seq<ConcatInput>, width: u32, height: u32)
    ensures
        input_parts(inputs, width, height).len() == 2 * inputs.len(),
    decreases inputs.len(),
{
    if inputs.len() > 0 {
        lemma_input_parts_len(inputs.drop_last(), width, height);
    }
}

proof fn lemma_input_parts_index(inputs: Seq<ConcatInput>, width: u32, height: u32, k: int)
    requires
        0 <= k < inputs.len(),
    ensures
        input_parts(inputs, width, height).len() == 2 * inputs.len(),
        input_parts(inputs, width, height)[2 * k] == video_part(inputs[k], k as nat, width, height),
        input_parts(inputs, width, height)[2 * k + 1] == audio_part(inputs[k], k as nat),
    decreases inputs.len(),
{
    lemma_input_parts_len(inputs, width, height);
    let prev = input_parts(inputs.drop_last(), width, height);
    lemma_input_parts_len(inputs.drop_last(), width, height);
    let n = (inputs.len() - 1) as nat;
    assert(input_parts(inputs, width, height) == prev.push(video_part(inputs.last(), n, width, height)).push(
        audio_part(inputs.last(), n),
    ));
    if k < inputs.len() - 1 {
        lemma_input_parts_index(inputs.drop_last(), width, height, k);
        assert(inputs.drop_last()[k] == inputs[k]);
    }
}

/// The assembly filter graph reads clip number `k`'s picture from the input that clip's
/// `video_input` names and its sound from the input its `audio_input` names (not from
/// input `k`), scales the picture to `width`×`height`, and labels the two streams
/// `[v<k>]` and `[a<k>]`; and it ends by concatenating all clips.
pub proof fn lemma_concat_filter_reads_each_clip(inputs: Seq<ConcatInput>, width: u32, height: u32, k: int)
    requires
        0 <= k < inputs.len(),
    ensures
        seq_contains(
            concat_filter_spec(inputs, width, height),
            "["@ + decimal(inputs[k].video_input as nat) + ":v]scale="@ + decimal(width as nat) + ":"@
                + decimal(height as nat) + ":force_original_aspect_ratio=decrease,pad="@
                + decimal(width as nat) + ":"@ + decimal(height as nat)
                + ":(ow-iw)/2:(oh-ih)/2:color=black,setsar=1,format=yuv420p,fps=30[v"@ + decimal(k as nat)
                + "]"@,
        ),
        seq_contains(
            concat_filter_spec(inputs, width, height),
            "["@ + decimal(inputs[k].audio_input as nat)
                + ":a]aformat=sample_fmts=fltp:sample_rates=48000:channel_layouts=stereo[a"@
                + decimal(k as nat) + "]"@,
        ),
{
    let parts = input_parts(inputs, width, height).push(concat_part(inputs.len()));
    lemma_input_parts_index(inputs, width, height, k);
    assert(parts[2 * k] == input_parts(inputs, width, height)[2 * k]);
    assert(parts[2 * k + 1] == input_parts(inputs, width, height)[2 * k + 1]);
    lemma_join_contains_part(parts, ";"@, 2 * k);
    lemma_join_contains_part(parts, ";"@, 2 * k + 1);
}

/// The labels of the first `n` clips, written out: `[v0][a0][v1][a1]...`.
pub open spec fn labels_written_out(n: nat) -> Seq<Seq<char>> {
    Seq::new(n, |k: int| "[v"@ + decimal(k as nat) + "][a"@ + decimal(k as nat) + "]"@)
}

proof fn lemma_stream_labels_flat(n: nat)
    ensures
        stream_labels(n) == labels_written_out(n).flatten(),
    decreases n,
{
    if n == 0 {
        assert(labels_written_out(0) =~= Seq::<Seq<char>>::empty());
    } else {
        lemma_stream_labels_flat((n - 1) as nat);
        let last = "[v"@ + decimal((n - 1) as nat) + "][a"@ + decimal((n - 1) as nat) + "]"@;
        assert(labels_written_out(n) =~= labels_written_out((n - 1) as nat).push(last));
        labels_written_out((n - 1) as nat).lemma_flatten_push(last);
        assert(stream_labels(n) =~= labels_written_out((n - 1) as nat).flatten() + last);
    }
}

/// The assembly filter graph ends by concatenating the labelled video and audio streams
/// of all `inputs.len()` clips, in clip order, into `[v][a]`.
pub proof fn lemma_concat_filter_ends_with_concat(inputs: Seq<ConcatInput>, width: u32, height: u32)
    ensures
        exists|head: Seq<char>|
            concat_filter_spec(inputs, width, height) == head + labels_written_out(inputs.len()).flatten()
                + "concat=n="@ + decimal(inputs.len()) + ":v=1:a=1[v][a]"@,
{
    lemma_stream_labels_flat(inputs.len());
    let parts = input_parts(inputs, width, height).push(concat_part(inputs.len()));
    let labels = labels_written_out(inputs.len()).flatten();
    let tail = labels + "concat=n="@ + decimal(inputs.len()) + ":v=1:a=1[v][a]"@;
    if parts.len() == 1 {
        let head = Seq::<char>::empty();
        assert(concat_filter_spec(inputs, width, height) =~= head + tail);
        assert(concat_filter_spec(inputs, width, height) == head + labels + "concat=n="@ + decimal(inputs.len())
            + ":v=1:a=1[v][a]"@);
    } else {
        let head = join_with(parts.drop_last(), ";"@) + ";"@;
        assert(parts.drop_last() =~= input_parts(inputs, width, height));
        assert(concat_filter_spec(inputs, width, height) =~= head + tail);
        assert(concat_filter_spec(inputs, width, height) == head + labels + "concat=n="@ + decimal(inputs.len())
            + ":v=1:a=1[v][a]"@);
    }
}

/// The manifest lists the files in the order given, one line each: `file '`, the
/// escaped path, `'` and a newline (an empty list gives a single newline).
pub proof fn lemma_manifest_lines_in_order(paths: Seq<Seq<char>>)
    ensures
        paths.len() > 0 ==> join_with(manifest_lines(paths), "\n"@) + "\n"@ == Seq::new(
            paths.len(),
            |k: int| "file '"@ + escape_quotes(paths[k]) + "'"@ + "\n"@,
        ).flatten(),
        paths.len() == 0 ==> join_with(manifest_lines(paths), "\n"@) + "\n"@ == "\n"@,
    decreases paths.len(),
{
    let lines = Seq::new(paths.len(), |k: int| "file '"@ + escape_quotes(paths[k]) + "'"@ + "\n"@);
    if paths.len() == 0 {
        assert(join_with(manifest_lines(paths), "\n"@) =~= Seq::<char>::empty());
        assert(Seq::<char>::empty() + "\n"@ =~= "\n"@);
    } else {
        let ps = paths.drop_last();
        let p = paths.last();
        lemma_manifest_lines_in_order(ps);
        let prev = Seq::new(ps.len(), |k: int| "file '"@ + escape_quotes(ps[k]) + "'"@ + "\n"@);
        assert(manifest_lines(paths) =~= manifest_lines(ps).push(manifest_line(p)));
        assert(lines =~= prev.push(manifest_line(p) + "\n"@));
        if ps.len() == 0 {
            assert(manifest_lines(paths).len() == 1);
            assert(lines.len() == 1);
            lines.lemma_flatten_singleton();
        } else {
            assert(manifest_lines(paths).drop_last() =~= manifest_lines(ps));
            assert(join_with(manifest_lines(paths), "\n"@) + "\n"@ =~= (join_with(manifest_lines(ps), "\n"@)
                + "\n"@) + (manifest_line(p) + "\n"@));
            prev.lemma_flatten_push(manifest_line(p) + "\n"@);
        }
    }
}

/// The inputs the assembly command opens for each clip, written out: the clip's path
/// after `-i`, then for a clip without sound a `lavfi` silence of the clip's duration.
pub open spec fn clip_inputs_written_out(clips: Seq<AssembleClip>) -> Seq<Seq<Seq<char>>> {
    Seq::new(
        clips.len(),
        |k: int|
            seq!["-i"@, clips[k].path@] + if clips[k].has_audio {
                Seq::<Seq<char>>::empty()
            } else {
                seq!["-f"@, "lavfi"@, "-t"@, clips[k].duration@, "-i"@, "anullsrc=r=48000:cl=stereo"@]
            },
    )
}

proof fn lemma_input_args_flat(clips: Seq<AssembleClip>)
    ensures
        input_args(clips) == clip_inputs_written_out(clips).flatten(),
    decreases clips.len(),
{
    if clips.len() == 0 {
        assert(clip_inputs_written_out(clips) =~= Seq::<Seq<Seq<char>>>::empty());
    } else {
        let prev = clips.drop_last();
        lemma_input_args_flat(prev);
        assert(clip_inputs_written_out(clips) =~= clip_inputs_written_out(prev).push(clip_input_args(clips.last())));
        clip_inputs_written_out(prev).lemma_flatten_push(clip_input_args(clips.last()));
    }
}

/// The assembly command: `-v error`; then, clip by clip in the given order, `-i` and
/// the clip's own path, plus a silent `lavfi` input of the clip's duration when the clip
/// has no sound; then the filter graph over those inputs at the first clip's size
/// rounded down to even; then the encoder settings (10M video); then the output path
/// and `-y`.
pub proof fn lemma_assemble_args_shape(clips: Seq<AssembleClip>, output: Seq<char>)
    requires
        clips.len() > 0,
    ensures
        ({
            let a = assemble_args(clips, output);
            let i = clip_inputs_written_out(clips).flatten();
            let n = i.len() as int;
            &&& a.len() == n + 24
            &&& a[0] == "-v"@ && a[1] == "error"@
            &&& a.subrange(2, n + 2) == i
            &&& a[n + 2] == "-filter_complex"@
            &&& a[n + 3] == concat_filter_spec(
                concat_inputs(clips),
                even_down(clips[0].width),
                even_down(clips[0].height),
            )
            &&& a.subrange(n + 4, n + 22) == encoder_args("10M"@)
            &&& a[n + 22] == output && a[n + 23] == "-y"@
        }),
{
    lemma_input_args_flat(clips);
    let a = assemble_args(clips, output);
    let i = input_args(clips);
    let n = i.len() as int;
    assert(a.subrange(2, n + 2) =~= i);
    assert(a.subrange(n + 4, n + 22) =~= encoder_args("10M"@));
}

} // verus!
