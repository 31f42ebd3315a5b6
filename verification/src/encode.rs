//! Encoding: which encoder to run and the command line that runs it.
//!
//! Every color flag is stated rather than defaulted, so a file is tagged with the same
//! primaries it was encoded against. Hardware encoders are opt-in: the automatic choice is
//! the software encoder that exists everywhere, whose output is comparable across machines.

use crate::color::Rgba;
use crate::error::{Error, ErrorView};
use crate::paths::{extension_is, has_extension};
use crate::text::{
    chars_of, decimal, folded, joined, push_char, push_dec, push_pair, push_text, push_texts, same,
    trimmed_text,
};
use crate::text::{dec, fold, join, or_text, strings, trim};
use crate::time::Fps;
use crate::toolchain::{hardware, kept, software, Toolchain};
use vstd::prelude::*;

verus! {

#[derive(Clone, Debug, PartialEq, Eq)]
pub enum Encoder {
    /// The default: `libx264`, which exists on every install.
    Auto,
    X264,
    X265,
    Svtav1,
    Nvenc,
    Vaapi,
    VideoToolbox,
    ProRes,
    /// Anything else the local ffmpeg has, by encoder name.
    Named(String),
}

pub enum EncoderView {
    Auto,
    X264,
    X265,
    Svtav1,
    Nvenc,
    Vaapi,
    VideoToolbox,
    ProRes,
    Named(Seq<char>),
}

impl View for Encoder {
    type V = EncoderView;

    open spec fn view(&self) -> EncoderView {
        match self {
            Encoder::Auto => EncoderView::Auto,
            Encoder::X264 => EncoderView::X264,
            Encoder::X265 => EncoderView::X265,
            Encoder::Svtav1 => EncoderView::Svtav1,
            Encoder::Nvenc => EncoderView::Nvenc,
            Encoder::Vaapi => EncoderView::Vaapi,
            Encoder::VideoToolbox => EncoderView::VideoToolbox,
            Encoder::ProRes => EncoderView::ProRes,
            Encoder::Named(name) => EncoderView::Named(name@),
        }
    }
}

/// What a name stands for, once it is trimmed and folded to lower case.
pub open spec fn encoder_of(key: Seq<char>) -> EncoderView {
    if key == ""@ || key == "auto"@ {
        EncoderView::Auto
    } else if key == "x264"@ || key == "h264"@ || key == "libx264"@ {
        EncoderView::X264
    } else if key == "x265"@ || key == "hevc"@ || key == "libx265"@ {
        EncoderView::X265
    } else if key == "av1"@ || key == "svtav1"@ || key == "libsvtav1"@ {
        EncoderView::Svtav1
    } else if key == "nvenc"@ || key == "h264_nvenc"@ {
        EncoderView::Nvenc
    } else if key == "vaapi"@ || key == "h264_vaapi"@ {
        EncoderView::Vaapi
    } else if key == "videotoolbox"@ || key == "vt"@ || key == "h264_videotoolbox"@ {
        EncoderView::VideoToolbox
    } else if key == "prores"@ || key == "prores_ks"@ {
        EncoderView::ProRes
    } else {
        EncoderView::Named(key)
    }
}

impl EncoderView {
    /// The ffmpeg encoder this asks for.
    pub open spec fn ffmpeg_name(self) -> Seq<char> {
        match self {
            EncoderView::Auto => "libx264"@,
            EncoderView::X264 => "libx264"@,
            EncoderView::X265 => "libx265"@,
            EncoderView::Svtav1 => "libsvtav1"@,
            EncoderView::Nvenc => "h264_nvenc"@,
            EncoderView::Vaapi => "h264_vaapi"@,
            EncoderView::VideoToolbox => "h264_videotoolbox"@,
            EncoderView::ProRes => "prores_ks"@,
            EncoderView::Named(name) => name,
        }
    }

    /// The quality flags of the encoder's family.
    pub open spec fn quality(self, quality: u32) -> Seq<Seq<char>> {
        match self {
            EncoderView::Nvenc => seq!["-rc"@, "vbr"@, "-cq"@, dec(quality as nat)],
            EncoderView::Vaapi => seq!["-qp"@, dec(quality as nat)],
            EncoderView::VideoToolbox => seq![
                "-q:v"@,
                dec(
                    if quality < 100 {
                        quality as nat
                    } else {
                        100
                    },
                ),
            ],
            EncoderView::ProRes => seq!["-profile:v"@, "3"@],
            _ => seq!["-crf"@, dec(quality as nat)],
        }
    }

    /// The preset flags, with each family's own default.
    pub open spec fn preset(self, preset: Option<String>) -> Seq<Seq<char>> {
        match self {
            EncoderView::Auto | EncoderView::X264 | EncoderView::X265 => seq![
                "-preset"@,
                or_text(preset, "medium"@),
            ],
            EncoderView::Svtav1 => seq!["-preset"@, or_text(preset, "8"@)],
            EncoderView::Nvenc => seq!["-preset"@, or_text(preset, "p5"@)],
            _ => seq![],
        }
    }
}

fn preset_or<'a>(preset: &'a Option<String>, other: &'a str) -> (r: &'a str)
    ensures
        r@ == or_text(*preset, other@),
{
    match preset {
        Some(text) => text.as_str(),
        None => other,
    }
}

impl Encoder {
    pub fn parse(text: &str) -> (r: Encoder)
        ensures
            r@ == encoder_of(trim(text@).map_values(|c: char| fold(c))),
    {
        let inner = trimmed_text(text);
        let key = folded(inner.as_str());
        let k = key.as_str();
        if same(k, "") || same(k, "auto") {
            Encoder::Auto
        } else if same(k, "x264") || same(k, "h264") || same(k, "libx264") {
            Encoder::X264
        } else if same(k, "x265") || same(k, "hevc") || same(k, "libx265") {
            Encoder::X265
        } else if same(k, "av1") || same(k, "svtav1") || same(k, "libsvtav1") {
            Encoder::Svtav1
        } else if same(k, "nvenc") || same(k, "h264_nvenc") {
            Encoder::Nvenc
        } else if same(k, "vaapi") || same(k, "h264_vaapi") {
            Encoder::Vaapi
        } else if same(k, "videotoolbox") || same(k, "vt") || same(k, "h264_videotoolbox") {
            Encoder::VideoToolbox
        } else if same(k, "prores") || same(k, "prores_ks") {
            Encoder::ProRes
        } else {
            Encoder::Named(key)
        }
    }

    /// The ffmpeg encoder name, checked against what this build has. A request for an
    /// encoder the machine lacks is an error naming the alternatives, never a fallback.
    pub fn resolve(&self, tool: &Toolchain) -> (r: Result<String, Error>)
        ensures
            r is Ok <==> tool.spec_encoders().contains(self@.ffmpeg_name()),
            r is Ok ==> r->Ok_0@ == self@.ffmpeg_name(),
            r is Err ==> r->Err_0@ == (ErrorView::Tool {
                tool: "ffmpeg"@,
                detail: "encoder '"@ + self@.ffmpeg_name()
                    + "' is not in this ffmpeg build; available: "@ + join(
                    kept(software() + hardware(), tool.spec_encoders()),
                    ", "@,
                ),
            }),
    {
        let wanted: &str = match self {
            Encoder::Auto => "libx264",
            Encoder::X264 => "libx264",
            Encoder::X265 => "libx265",
            Encoder::Svtav1 => "libsvtav1",
            Encoder::Nvenc => "h264_nvenc",
            Encoder::Vaapi => "h264_vaapi",
            Encoder::VideoToolbox => "h264_videotoolbox",
            Encoder::ProRes => "prores_ks",
            Encoder::Named(name) => name.as_str(),
        };
        if tool.has_encoder(wanted) {
            return Ok(wanted.to_owned());
        }
        let have = tool.available();
        let list = joined(&have, ", ");
        let mut detail = "encoder '".to_owned();
        detail.append(wanted);
        detail.append("' is not in this ffmpeg build; available: ");
        detail.append(list.as_str());
        Err(Error::Tool { tool: "ffmpeg".to_owned(), detail })
    }

    pub fn quality_args(&self, quality: u32) -> (r: Vec<String>)
        ensures
            strings(r@) == self@.quality(quality),
    {
        let mut args: Vec<String> = Vec::new();
        assert(strings(args@) =~= seq![]);
        match self {
            Encoder::Nvenc => {
                push_pair(&mut args, "-rc", "vbr");
                push_pair(&mut args, "-cq", decimal(quality as u128).as_str());
            },
            Encoder::Vaapi => {
                push_pair(&mut args, "-qp", decimal(quality as u128).as_str());
            },
            Encoder::VideoToolbox => {
                let level: u32 = if quality < 100 {
                    quality
                } else {
                    100
                };
                push_pair(&mut args, "-q:v", decimal(level as u128).as_str());
            },
            Encoder::ProRes => {
                push_pair(&mut args, "-profile:v", "3");
            },
            _ => {
                push_pair(&mut args, "-crf", decimal(quality as u128).as_str());
            },
        }
        assert(strings(args@) =~= self@.quality(quality));
        args
    }

    pub fn preset_args(&self, preset: &Option<String>) -> (r: Vec<String>)
        ensures
            strings(r@) == self@.preset(*preset),
    {
        let mut args: Vec<String> = Vec::new();
        assert(strings(args@) =~= seq![]);
        match self {
            Encoder::Auto | Encoder::X264 | Encoder::X265 => {
                push_pair(&mut args, "-preset", preset_or(preset, "medium"));
            },
            Encoder::Svtav1 => {
                push_pair(&mut args, "-preset", preset_or(preset, "8"));
            },
            Encoder::Nvenc => {
                push_pair(&mut args, "-preset", preset_or(preset, "p5"));
            },
            _ => {},
        }
        assert(strings(args@) =~= self@.preset(*preset));
        args
    }
}

/// The audio to multiplex: raw interleaved samples on disk, and how to encode them.
#[derive(Clone, Debug)]
pub struct AudioSpec {
    pub pcm: String,
    pub rate: u32,
    pub channels: u16,
    /// `aac`, `libopus`, `pcm_s16le`.
    pub codec: String,
    pub bitrate: String,
}

#[derive(Clone, Debug)]
pub struct EncodeSpec {
    pub output: String,
    pub size: [u32; 2],
    pub fps: Fps,
    pub encoder: Encoder,
    /// Constant-quality level; 18 is the project default.
    pub quality: u32,
    pub preset: Option<String>,
    pub audio: Option<AudioSpec>,
    /// What transparent pixels resolve to.
    pub background: Rgba,
    /// Start every segment with a keyframe that nothing references across, so that
    /// segments can be concatenated without re-encoding.
    pub closed_gop: bool,
    pub extra: Vec<String>,
}

impl EncodeSpec {
    pub fn new(output: String, size: [u32; 2], fps: Fps) -> (r: EncodeSpec)
        ensures
            r.output == output,
            r.size == size,
            r.fps == fps,
            r.encoder == Encoder::Auto,
            r.quality == 18,
            r.preset is None,
            r.audio is None,
            r.background == (Rgba { r: 0, g: 0, b: 0, a: 255 }),
            !r.closed_gop,
            r.extra@.len() == 0,
    {
        EncodeSpec {
            output,
            size,
            fps,
            encoder: Encoder::Auto,
            quality: 18,
            preset: None,
            audio: None,
            background: Rgba::opaque(0, 0, 0),
            closed_gop: false,
            extra: Vec::new(),
        }
    }
}

/// ProRes needs a 10-bit 4:2:2 format; everything else is 8-bit 4:2:0 for compatibility.
pub open spec fn pixel_format_of(encoder: Seq<char>) -> Seq<char> {
    if encoder == "prores_ks"@ || encoder == "prores_videotoolbox"@ {
        "yuv422p10le"@
    } else {
        "yuv420p"@
    }
}

pub fn pixel_format(encoder: &str) -> (r: &'static str)
    ensures
        r@ == pixel_format_of(encoder@),
{
    if same(encoder, "prores_ks") || same(encoder, "prores_videotoolbox") {
        "yuv422p10le"
    } else {
        "yuv420p"
    }
}

/// `WxH`.
pub open spec fn size_text(width: u32, height: u32) -> Seq<char> {
    dec(width as nat) + seq!['x'] + dec(height as nat)
}

pub fn sized(width: u32, height: u32) -> (r: String)
    ensures
        r@ == size_text(width, height),
{
    let mut out = decimal(width as u128);
    push_char(&mut out, 'x');
    push_dec(&mut out, height as u128);
    assert(out@ =~= size_text(width, height));
    out
}

/// Raw samples as an input: format, rate, channels, file.
pub open spec fn pcm_input(audio: AudioSpec) -> Seq<Seq<char>> {
    seq![
        "-f"@,
        "f32le"@,
        "-ar"@,
        dec(audio.rate as nat),
        "-ac"@,
        dec(audio.channels as nat),
        "-i"@,
        audio.pcm@,
    ]
}

fn push_pcm_input(args: &mut Vec<String>, audio: &AudioSpec)
    ensures
        strings(final(args)@) == strings(old(args)@) + pcm_input(*audio),
{
    push_pair(args, "-f", "f32le");
    push_pair(args, "-ar", decimal(audio.rate as u128).as_str());
    push_pair(args, "-ac", decimal(audio.channels as u128).as_str());
    push_pair(args, "-i", audio.pcm.as_str());
    assert(strings(final(args)@) =~= strings(old(args)@) + pcm_input(*audio));
}

/// Frames arrive as raw RGB on standard input.
pub open spec fn frame_input(spec: EncodeSpec) -> Seq<Seq<char>> {
    seq![
        "-f"@,
        "rawvideo"@,
        "-pix_fmt"@,
        "rgb24"@,
        "-s"@,
        size_text(spec.size[0], spec.size[1]),
        "-r"@,
        spec.fps.rate.text(),
        "-i"@,
        "-"@,
    ]
}

/// Conversion to limited range and the tags that say so.
pub open spec fn color_flags(encoder: Seq<char>) -> Seq<Seq<char>> {
    seq![
        "-vf"@,
        "scale=out_range=tv:out_color_matrix=bt709:flags=bicubic"@,
        "-pix_fmt"@,
        pixel_format_of(encoder),
        "-colorspace"@,
        "bt709"@,
        "-color_primaries"@,
        "bt709"@,
        "-color_trc"@,
        "bt709"@,
        "-color_range"@,
        "tv"@,
    ]
}

pub open spec fn gop_flags(closed: bool) -> Seq<Seq<char>> {
    if closed {
        seq!["-g"@, "60"@, "-flags"@, "+cgop"@, "-sc_threshold"@, "0"@]
    } else {
        seq![]
    }
}

pub open spec fn audio_flags(audio: Option<AudioSpec>) -> Seq<Seq<char>> {
    match audio {
        Some(audio) => seq!["-c:a"@, audio.codec@, "-b:a"@, audio.bitrate@, "-shortest"@],
        None => seq![],
    }
}

pub open spec fn audio_input(audio: Option<AudioSpec>) -> Seq<Seq<char>> {
    match audio {
        Some(audio) => pcm_input(audio),
        None => seq![],
    }
}

/// Containers that can be played before they are complete.
pub open spec fn faststart_flags(output: Seq<char>) -> Seq<Seq<char>> {
    if extension_is(output, "mp4"@) || extension_is(output, "mov"@) {
        seq!["-movflags"@, "+faststart"@]
    } else {
        seq![]
    }
}

/// The arguments that follow the standing flags when an encoder is started.
pub open spec fn encode_command(spec: EncodeSpec, encoder: Seq<char>) -> Seq<Seq<char>> {
    frame_input(spec) + audio_input(spec.audio) + seq!["-c:v"@, encoder] + spec.encoder@.preset(
        spec.preset,
    ) + spec.encoder@.quality(spec.quality) + color_flags(encoder) + gop_flags(spec.closed_gop)
        + audio_flags(spec.audio) + strings(spec.extra@) + faststart_flags(spec.output@) + seq![
        spec.output@,
    ]
}

/// Builds the command line of an encoding session.
pub fn encode_args(spec: &EncodeSpec, encoder: &str) -> (r: Vec<String>)
    ensures
        strings(r@) == encode_command(*spec, encoder@),
{
    let mut args: Vec<String> = Vec::new();
    push_pair(&mut args, "-f", "rawvideo");
    push_pair(&mut args, "-pix_fmt", "rgb24");
    push_pair(&mut args, "-s", sized(spec.size[0], spec.size[1]).as_str());
    push_pair(&mut args, "-r", spec.fps.ffmpeg_arg().as_str());
    push_pair(&mut args, "-i", "-");
    assert(strings(args@) =~= frame_input(*spec));
    if let Some(audio) = &spec.audio {
        push_pcm_input(&mut args, audio);
    }
    assert(strings(args@) =~= frame_input(*spec) + audio_input(spec.audio));
    push_pair(&mut args, "-c:v", encoder);
    let preset = spec.encoder.preset_args(&spec.preset);
    push_texts(&mut args, &preset);
    let quality = spec.encoder.quality_args(spec.quality);
    push_texts(&mut args, &quality);
    let ghost so_far = strings(args@);
    push_pair(&mut args, "-vf", "scale=out_range=tv:out_color_matrix=bt709:flags=bicubic");
    push_pair(&mut args, "-pix_fmt", pixel_format(encoder));
    push_pair(&mut args, "-colorspace", "bt709");
    push_pair(&mut args, "-color_primaries", "bt709");
    push_pair(&mut args, "-color_trc", "bt709");
    push_pair(&mut args, "-color_range", "tv");
    assert(strings(args@) =~= so_far + color_flags(encoder@));
    let ghost so_far = strings(args@);
    if spec.closed_gop {
        push_pair(&mut args, "-g", "60");
        push_pair(&mut args, "-flags", "+cgop");
        push_pair(&mut args, "-sc_threshold", "0");
    }
    assert(strings(args@) =~= so_far + gop_flags(spec.closed_gop));
    let ghost so_far = strings(args@);
    if let Some(audio) = &spec.audio {
        push_pair(&mut args, "-c:a", audio.codec.as_str());
        push_pair(&mut args, "-b:a", audio.bitrate.as_str());
        push_text(&mut args, "-shortest");
    }
    assert(strings(args@) =~= so_far + audio_flags(spec.audio));
    push_texts(&mut args, &spec.extra);
    let ghost so_far = strings(args@);
    if has_extension(spec.output.as_str(), "mp4") || has_extension(spec.output.as_str(), "mov") {
        push_pair(&mut args, "-movflags", "+faststart");
    }
    assert(strings(args@) =~= so_far + faststart_flags(spec.output@));
    push_text(&mut args, spec.output.as_str());
    assert(strings(args@) =~= encode_command(*spec, encoder@));
    args
}

/// The arguments that multiplex a finished picture with raw samples.
pub open spec fn mux_command(video: Seq<char>, audio: AudioSpec, output: Seq<char>) -> Seq<
    Seq<char>,
> {
    seq!["-i"@, video] + pcm_input(audio) + seq![
        "-c:v"@,
        "copy"@,
        "-c:a"@,
        audio.codec@,
        "-b:a"@,
        audio.bitrate@,
        "-map"@,
        "0:v:0"@,
        "-map"@,
        "1:a:0"@,
        "-shortest"@,
        output,
    ]
}

pub fn mux_args(video: &str, audio: &AudioSpec, output: &str) -> (r: Vec<String>)
    ensures
        strings(r@) == mux_command(video@, *audio, output@),
{
    let mut args: Vec<String> = Vec::new();
    push_pair(&mut args, "-i", video);
    push_pcm_input(&mut args, audio);
    push_pair(&mut args, "-c:v", "copy");
    push_pair(&mut args, "-c:a", audio.codec.as_str());
    push_pair(&mut args, "-b:a", audio.bitrate.as_str());
    push_pair(&mut args, "-map", "0:v:0");
    push_pair(&mut args, "-map", "1:a:0");
    push_text(&mut args, "-shortest");
    push_text(&mut args, output);
    assert(strings(args@) =~= mux_command(video@, *audio, output@));
    args
}

/// A path with each single quote closed, escaped and reopened.
pub open spec fn quoted(path: Seq<char>) -> Seq<char>
    decreases path.len(),
{
    if path.len() == 0 {
        seq![]
    } else if path.last() == '\'' {
        quoted(path.drop_last()) + seq!['\'', '\\', '\'', '\'']
    } else {
        quoted(path.drop_last()).push(path.last())
    }
}

/// One line of a concatenation list.
pub open spec fn concat_line(path: Seq<char>) -> Seq<char> {
    "file '"@ + quoted(path) + "'"@
}

fn push_quoted(out: &mut String, path: &str)
    ensures
        final(out)@ == old(out)@ + quoted(path@),
{
    let chars = chars_of(path);
    let mut i: usize = 0;
    assert(path@.take(0) =~= seq![]);
    assert(out@ =~= old(out)@ + quoted(path@.take(0)));
    while i < chars.len()
        invariant
            i <= chars@.len(),
            chars@ == path@,
            out@ == old(out)@ + quoted(path@.take(i as int)),
        decreases chars@.len() - i,
    {
        let c = chars[i];
        if c == '\'' {
            push_char(out, '\'');
            push_char(out, '\\');
            push_char(out, '\'');
            push_char(out, '\'');
        } else {
            push_char(out, c);
        }
        proof {
            assert(path@.take(i + 1).drop_last() =~= path@.take(i as int));
            assert(out@ =~= old(out)@ + quoted(path@.take(i + 1)));
        }
        i = i + 1;
    }
    assert(path@.take(i as int) =~= path@);
}

/// The list file that joins segments without re-encoding, one line per segment. There has
/// to be at least one.
pub fn concat_list(segments: &Vec<String>) -> (r: Result<String, Error>)
    ensures
        r is Err <==> segments@.len() == 0,
        r is Err ==> r->Err_0@ == ErrorView::Op("nothing to concatenate"@),
        r is Ok ==> r->Ok_0@ == join(
            strings(segments@).map_values(|path: Seq<char>| concat_line(path)),
            "\n"@,
        ),
{
    if segments.len() == 0 {
        return Err(Error::op("nothing to concatenate"));
    }
    let ghost wanted = strings(segments@).map_values(|path: Seq<char>| concat_line(path));
    let mut list: Vec<String> = Vec::new();
    let mut i: usize = 0;
    assert(strings(list@) =~= wanted.take(0));
    while i < segments.len()
        invariant
            i <= segments@.len(),
            wanted == strings(segments@).map_values(|path: Seq<char>| concat_line(path)),
            strings(list@) == wanted.take(i as int),
        decreases segments@.len() - i,
    {
        let mut line = "file '".to_owned();
        push_quoted(&mut line, segments[i].as_str());
        line.append("'");
        push_text(&mut list, line.as_str());
        i = i + 1;
        assert(strings(list@) =~= wanted.take(i as int));
    }
    assert(wanted.take(i as int) =~= wanted);
    Ok(joined(&list, "\n"))
}

/// Whether a frame can be handed to an encoder that was started for another size.
pub fn check_frame(expected: [u32; 2], got: [u32; 2]) -> (r: Result<(), Error>)
    ensures
        r is Ok <==> expected[0] == got[0] && expected[1] == got[1],
        r is Err ==> r->Err_0@ == ErrorView::Op(
            "encoder expects "@ + size_text(expected[0], expected[1]) + " frames, got "@
                + size_text(got[0], got[1]),
        ),
{
    if expected[0] == got[0] && expected[1] == got[1] {
        return Ok(());
    }
    let mut detail = "encoder expects ".to_owned();
    detail.append(sized(expected[0], expected[1]).as_str());
    detail.append(" frames, got ");
    detail.append(sized(got[0], got[1]).as_str());
    Err(Error::Op(detail))
}

} // verus!
