//! What ffmpeg is asked for, and how pictures are laid out.

use crate::decode::{
    chain_text, decoder_args, matrix_name, range_name, sound_args, DecodeSpec, DecodeState,
};
use crate::encode::{
    audio_flags, audio_input, color_flags, encode_command, encoder_of, faststart_flags, frame_input,
    gop_flags, mux_command, pcm_input, pixel_format_of, quoted, size_text, AudioSpec, EncodeSpec,
    EncoderView,
};
use crate::number::rounded_text;
use crate::paths::extension_is;
use crate::project::{ColorMatrix, ColorRange, Probe, VideoStream};
use crate::proxy::{
    bucket_samples, needs_proxy, picture_args, source_rate, stand_in_args, still_args,
    thumbnail_count, thumbnail_time, ProxySpec,
};
use crate::rational::{floor, Rat};
use crate::sheet::{
    badge_size, box_of, cell_height, cell_width, escape_char, label_band, label_size, rows_of,
    stroke_size, xml_escaped, Layer,
};
use crate::text::{dec, strings};
use crate::time::{Fps, Time};
use crate::time_laws::{is_nearest, law_rounding_gives_the_nearest};
use vstd::prelude::*;

verus! {

// ---------------------------------------------------------------------------
// Arguments
// ---------------------------------------------------------------------------

/// Whether a flag is given with a value.
pub open spec fn passes(args: Seq<Seq<char>>, flag: Seq<char>, value: Seq<char>) -> bool {
    exists|i: int| 0 <= i < args.len() - 1 && #[trigger] args[i] == flag && args[i + 1] == value
}

proof fn lemma_passes(args: Seq<Seq<char>>, i: int)
    requires
        0 <= i < args.len() - 1,
    ensures
        passes(args, args[i], args[i + 1]),
{
}

proof fn lemma_behind(front: Seq<Seq<char>>, args: Seq<Seq<char>>, i: int)
    requires
        0 <= i < args.len() - 1,
    ensures
        passes(front + args, args[i], args[i + 1]),
{
    let all = front + args;
    assert(all[front.len() + i] == args[i] && all[front.len() + i + 1] == args[i + 1]);
}

proof fn lemma_in_front(args: Seq<Seq<char>>, back: Seq<Seq<char>>, flag: Seq<char>, value: Seq<char>)
    requires
        passes(args, flag, value),
    ensures
        passes(args + back, flag, value),
{
    let i = choose|i: int|
        0 <= i < args.len() - 1 && #[trigger] args[i] == flag && args[i + 1] == value;
    let all = args + back;
    assert(all[i] == args[i] && all[i + 1] == args[i + 1]);
}

/// A stand-in is made of its source at its rate and height, with an even width, and written where it
/// was asked for.
pub proof fn law_a_stand_in_is_made_as_described(
    source: Seq<char>,
    output: Seq<char>,
    spec_: ProxySpec,
)
    ensures
        ({
            let args = stand_in_args(source, output, spec_);
            &&& passes(args, "-i"@, source)
            &&& passes(
                args,
                "-vf"@,
                "fps="@ + spec_.fps.text() + ",scale=-2:"@ + dec(spec_.height as nat)
                    + ":flags=bilinear"@,
            )
            &&& passes(args, "-crf"@, dec(spec_.quality as nat))
            &&& args.last() == output
        }),
{
    let args = stand_in_args(source, output, spec_);
    lemma_passes(args, 0);
    lemma_passes(args, 2);
    lemma_passes(args, 8);
}

/// A stand-in has the rate of its source, or the other one where there is no picture; one is needed
/// exactly where the rate varies or the picture is shown higher than 1080 lines.
pub proof fn law_a_stand_in_is_needed_for_what_is_hard(probe: Probe, other: Fps)
    ensures
        needs_proxy(probe) <==> probe.vfr || (probe.video matches Some(stream)
            && stream.shown_size()@[1] > 1080),
        probe.video matches Some(stream) ==> source_rate(probe, other) == stream.fps,
        probe.video is None ==> source_rate(probe, other) == other,
{
}

/// A thumbnail is one picture of its source at its instant, at its width and an even height.
pub proof fn law_a_thumbnail_is_of_its_instant(
    source: Seq<char>,
    output: Seq<char>,
    at: Time,
    width: u32,
)
    ensures
        ({
            let args = still_args(source, output, at, width);
            &&& passes(args, "-ss"@, rounded_text(at.secs, 4))
            &&& passes(args, "-i"@, source)
            &&& passes(args, "-frames:v"@, "1"@)
            &&& passes(args, "-vf"@, "scale="@ + dec(width as nat) + ":-2"@)
            &&& args.last() == output
        }),
{
    let args = still_args(source, output, at, width);
    lemma_passes(args, 0);
    lemma_passes(args, 2);
    lemma_passes(args, 4);
    lemma_passes(args, 6);
}

/// A picture is read at its size, width first, and written where it was asked for.
pub proof fn law_a_picture_is_written_at_its_size(width: u32, height: u32, output: Seq<char>)
    ensures
        passes(
            picture_args(width, height, output),
            "-s"@,
            dec(width as nat) + "x"@ + dec(height as nat),
        ),
        picture_args(width, height, output).last() == output,
{
    lemma_passes(picture_args(width, height, output), 4);
}

/// A decoder reads its file from where it is asked to, and seeks only where that is behind the start.
pub proof fn law_a_decoder_starts_where_it_is_asked_to(spec_: DecodeSpec, path: Seq<char>, from: Time)
    ensures
        ({
            let args = decoder_args(spec_, path, from);
            &&& passes(args, "-i"@, path)
            &&& passes(args, "-vf"@, chain_text(spec_))
            &&& passes(args, "-pix_fmt"@, "rgba"@)
            &&& from.secs.num > 0 ==> passes(args, "-ss"@, rounded_text(from.secs, 6))
            &&& from.secs.num <= 0 ==> args[0] == "-i"@
        }),
{
    let args = decoder_args(spec_, path, from);
    if from.secs.num > 0 {
        lemma_passes(args, 0);
        lemma_passes(args, 2);
        lemma_passes(args, 7);
        lemma_passes(args, 11);
    } else {
        lemma_passes(args, 0);
        lemma_passes(args, 5);
        lemma_passes(args, 9);
    }
}

/// Sound is read from its start on for its length, at its rate and number of channels.
pub proof fn law_sound_is_read_as_asked(
    path: Seq<char>,
    start: Time,
    duration: Time,
    rate: u32,
    channels: u16,
)
    ensures
        ({
            let args = sound_args(path, start, duration, rate, channels);
            &&& passes(args, "-ss"@, rounded_text(start.secs, 6))
            &&& passes(args, "-i"@, path)
            &&& passes(args, "-t"@, rounded_text(duration.secs, 6))
            &&& passes(args, "-ar"@, dec(rate as nat))
            &&& passes(args, "-ac"@, dec(channels as nat))
        }),
{
    let args = sound_args(path, start, duration, rate, channels);
    lemma_passes(args, 0);
    lemma_passes(args, 2);
    lemma_passes(args, 4);
    lemma_passes(args, 9);
    lemma_passes(args, 11);
}

/// What is not flagged is taken as limited range, and as the matrix that its height suggests; a flag
/// is believed.
pub proof fn law_flags_are_believed(height: u32)
    ensures
        matrix_name(ColorMatrix::Unknown, height) == if height >= 720 {
            matrix_name(ColorMatrix::Bt709, height)
        } else {
            matrix_name(ColorMatrix::Bt601, height)
        },
        matrix_name(ColorMatrix::Bt709, height) == "bt709"@,
        matrix_name(ColorMatrix::Bt601, height) == "bt601"@,
        matrix_name(ColorMatrix::Bt2020Ncl, height) == "bt2020ncl"@,
        matrix_name(ColorMatrix::Smpte240m, height) == "smpte240m"@,
        range_name(ColorRange::Pc) == "full"@,
        forall|range: ColorRange| range != ColorRange::Pc ==> #[trigger] range_name(range)
            == "limited"@,
{
}

/// An encoder gets the pictures at their size and rate, the sound if there is any, and its own name;
/// it writes where it was asked to, and everything extra is passed on just before.
pub proof fn law_an_encoder_gets_what_was_asked_for(spec: EncodeSpec, encoder: Seq<char>)
    ensures
        ({
            let args = encode_command(spec, encoder);
            &&& passes(
                args,
                "-s"@,
                dec(spec.size[0] as nat) + seq!['x'] + dec(spec.size[1] as nat),
            )
            &&& passes(args, "-r"@, spec.fps.rate.text())
            &&& passes(args, "-c:v"@, encoder)
            &&& passes(args, "-color_range"@, "tv"@)
            &&& passes(
                args,
                "-pix_fmt"@,
                if encoder == "prores_ks"@ || encoder == "prores_videotoolbox"@ {
                    "yuv422p10le"@
                } else {
                    "yuv420p"@
                },
            )
            &&& spec.audio matches Some(audio) ==> {
                &&& passes(args, "-ar"@, dec(audio.rate as nat))
                &&& passes(args, "-ac"@, dec(audio.channels as nat))
                &&& passes(args, "-i"@, audio.pcm@)
                &&& passes(args, "-c:a"@, audio.codec@)
                &&& passes(args, "-b:a"@, audio.bitrate@)
            }
            &&& spec.closed_gop ==> passes(args, "-flags"@, "+cgop"@)
            &&& extension_is(spec.output@, "mp4"@) || extension_is(spec.output@, "mov"@)
                ==> passes(args, "-movflags"@, "+faststart"@)
            &&& args.last() == spec.output@
        }),
{
    reveal_with_fuel(command_to, 12);
    let p0 = frame_input(spec);
    let p1 = p0 + audio_input(spec.audio);
    let p2 = p1 + seq!["-c:v"@, encoder];
    let p3 = p2 + spec.encoder@.preset(spec.preset);
    let p4 = p3 + spec.encoder@.quality(spec.quality);
    let p5 = p4 + color_flags(encoder);
    let p6 = p5 + gop_flags(spec.closed_gop);
    let p7 = p6 + audio_flags(spec.audio);
    let p8 = p7 + strings(spec.extra@);
    let p9 = p8 + faststart_flags(spec.output@);
    let args = p9 + seq![spec.output@];
    assert(args == encode_command(spec, encoder));
    let rest0 = seq!["-c:v"@, encoder];
    lemma_passes(p0, 4);
    lemma_passes(p0, 6);
    let size = size_text(spec.size[0], spec.size[1]);
    let rate = spec.fps.rate.text();
    lemma_up(p0, spec, encoder, 0, "-s"@, size);
    lemma_up(p0, spec, encoder, 0, "-r"@, rate);
    if let Some(audio) = spec.audio {
        let pcm = pcm_input(audio);
        lemma_behind(p0, pcm, 2);
        lemma_behind(p0, pcm, 4);
        lemma_behind(p0, pcm, 6);
        lemma_up(p1, spec, encoder, 1, "-ar"@, dec(audio.rate as nat));
        lemma_up(p1, spec, encoder, 1, "-ac"@, dec(audio.channels as nat));
        lemma_up(p1, spec, encoder, 1, "-i"@, audio.pcm@);
        lemma_behind(p6, audio_flags(spec.audio), 0);
        lemma_behind(p6, audio_flags(spec.audio), 2);
        lemma_up(p7, spec, encoder, 7, "-c:a"@, audio.codec@);
        lemma_up(p7, spec, encoder, 7, "-b:a"@, audio.bitrate@);
    }
    lemma_behind(p1, rest0, 0);
    lemma_up(p2, spec, encoder, 2, "-c:v"@, encoder);
    lemma_behind(p4, color_flags(encoder), 2);
    lemma_behind(p4, color_flags(encoder), 10);
    lemma_up(p5, spec, encoder, 5, "-pix_fmt"@, pixel_format_of(encoder));
    lemma_up(p5, spec, encoder, 5, "-color_range"@, "tv"@);
    if spec.closed_gop {
        lemma_behind(p5, gop_flags(true), 2);
        lemma_up(p6, spec, encoder, 6, "-flags"@, "+cgop"@);
    }
    if extension_is(spec.output@, "mp4"@) || extension_is(spec.output@, "mov"@) {
        lemma_behind(p8, faststart_flags(spec.output@), 0);
        lemma_in_front(p9, seq![spec.output@], "-movflags"@, "+faststart"@);
    }
}

/// The arguments up to some part of the command.
spec fn command_to(spec: EncodeSpec, encoder: Seq<char>, part: int) -> Seq<Seq<char>>
    decreases part,
{
    if part <= 0 {
        frame_input(spec)
    } else {
        command_to(spec, encoder, part - 1) + command_part(spec, encoder, part)
    }
}

spec fn command_part(spec: EncodeSpec, encoder: Seq<char>, part: int) -> Seq<Seq<char>> {
    if part == 1 {
        audio_input(spec.audio)
    } else if part == 2 {
        seq!["-c:v"@, encoder]
    } else if part == 3 {
        spec.encoder@.preset(spec.preset)
    } else if part == 4 {
        spec.encoder@.quality(spec.quality)
    } else if part == 5 {
        color_flags(encoder)
    } else if part == 6 {
        gop_flags(spec.closed_gop)
    } else if part == 7 {
        audio_flags(spec.audio)
    } else if part == 8 {
        strings(spec.extra@)
    } else if part == 9 {
        faststart_flags(spec.output@)
    } else {
        seq![spec.output@]
    }
}

/// What an early part passes, the whole command does.
proof fn lemma_up(
    args: Seq<Seq<char>>,
    spec: EncodeSpec,
    encoder: Seq<char>,
    part: int,
    flag: Seq<char>,
    value: Seq<char>,
)
    requires
        0 <= part <= 10,
        passes(args, flag, value),
        args == command_to(spec, encoder, part),
    ensures
        passes(encode_command(spec, encoder), flag, value),
    decreases 10 - part,
{
    reveal_with_fuel(command_to, 12);
    if part < 10 {
        lemma_in_front(args, command_part(spec, encoder, part + 1), flag, value);
        lemma_up(command_to(spec, encoder, part + 1), spec, encoder, part + 1, flag, value);
    }
}

/// Muxing copies the picture of one file and encodes the sound of another, and takes one stream of
/// each.
pub proof fn law_muxing_takes_one_stream_of_each(video: Seq<char>, audio: AudioSpec, output: Seq<char>)
    ensures
        ({
            let args = mux_command(video, audio, output);
            &&& args[0] == "-i"@ && args[1] == video
            &&& passes(args, "-i"@, audio.pcm@)
            &&& passes(args, "-ar"@, dec(audio.rate as nat))
            &&& passes(args, "-ac"@, dec(audio.channels as nat))
            &&& passes(args, "-c:v"@, "copy"@)
            &&& passes(args, "-c:a"@, audio.codec@)
            &&& passes(args, "-b:a"@, audio.bitrate@)
            &&& passes(args, "-map"@, "0:v:0"@)
            &&& passes(args, "-map"@, "1:a:0"@)
            &&& args.last() == output
        }),
{
    let args = mux_command(video, audio, output);
    assert(args.len() == 22);
    lemma_passes(args, 4);
    lemma_passes(args, 6);
    lemma_passes(args, 8);
    lemma_passes(args, 10);
    lemma_passes(args, 12);
    lemma_passes(args, 14);
    lemma_passes(args, 16);
    lemma_passes(args, 18);
}

/// Quality reaches every encoder that has such a setting, each under its own flag.
pub proof fn law_quality_reaches_the_encoder(encoder: EncoderView, quality: u32)
    ensures
        encoder is X264 || encoder is X265 || encoder is Svtav1 || encoder is Auto
            || encoder is Named ==> passes(encoder.quality(quality), "-crf"@, dec(quality as nat)),
        encoder is Nvenc ==> passes(encoder.quality(quality), "-cq"@, dec(quality as nat)),
        encoder is Vaapi ==> passes(encoder.quality(quality), "-qp"@, dec(quality as nat)),
        encoder is VideoToolbox && quality <= 100 ==> passes(
            encoder.quality(quality),
            "-q:v"@,
            dec(quality as nat),
        ),
        encoder is VideoToolbox && quality > 100 ==> passes(
            encoder.quality(quality),
            "-q:v"@,
            dec(100),
        ),
{
    let args = encoder.quality(quality);
    lemma_passes(args, 0);
    if encoder is Nvenc {
        lemma_passes(args, 2);
    }
}

/// What ffmpeg calls an encoder stands for that encoder.
pub proof fn law_an_encoder_goes_by_its_own_name(key: Seq<char>)
    ensures
        !(encoder_of(key) is Auto) && !(encoder_of(key) is Named) ==> encoder_of(
            encoder_of(key).ffmpeg_name(),
        ) == encoder_of(key),
        encoder_of(key) matches EncoderView::Named(name) ==> name == key,
{
    reveal_strlit("");
    reveal_strlit("auto");
    reveal_strlit("x264");
    reveal_strlit("h264");
    reveal_strlit("libx264");
    reveal_strlit("x265");
    reveal_strlit("hevc");
    reveal_strlit("libx265");
    reveal_strlit("av1");
    reveal_strlit("svtav1");
    reveal_strlit("libsvtav1");
    reveal_strlit("nvenc");
    reveal_strlit("h264_nvenc");
    reveal_strlit("vaapi");
    reveal_strlit("h264_vaapi");
    reveal_strlit("videotoolbox");
    reveal_strlit("vt");
    reveal_strlit("h264_videotoolbox");
    reveal_strlit("prores");
    reveal_strlit("prores_ks");
    assert(""@.len() == 0);
    assert("auto"@.len() == 4 && "x264"@.len() == 4 && "h264"@.len() == 4 && "x265"@.len() == 4
        && "hevc"@.len() == 4);
    assert("libx264"@.len() == 7 && "libx264"@[6] == '4');
    assert("libx265"@.len() == 7 && "libx265"@[6] == '5');
    assert("av1"@.len() == 3 && "svtav1"@.len() == 6);
    assert("libsvtav1"@.len() == 9 && "libsvtav1"@[0] == 'l');
    assert("nvenc"@.len() == 5 && "vaapi"@.len() == 5);
    assert("h264_nvenc"@.len() == 10 && "h264_nvenc"@[5] == 'n');
    assert("h264_vaapi"@.len() == 10 && "h264_vaapi"@[5] == 'v');
    assert("videotoolbox"@.len() == 12 && "vt"@.len() == 2 && "h264_videotoolbox"@.len() == 17);
    assert("prores"@.len() == 6 && "prores_ks"@.len() == 9 && "prores_ks"@[0] == 'p');
}

/// A path is quoted character by character: an apostrophe leaves the quotes and comes back, any other
/// character stands for itself.
pub proof fn law_a_path_is_quoted_in_place(path: Seq<char>, c: char)
    ensures
        quoted(Seq::<char>::empty()) == Seq::<char>::empty(),
        c != '\'' ==> quoted(path.push(c)) == quoted(path).push(c),
        c == '\'' ==> quoted(path.push(c)) == quoted(path) + seq!['\'', '\\', '\'', '\''],
{
    assert(path.push(c).drop_last() =~= path);
}

// ---------------------------------------------------------------------------
// Thumbnails and waveforms
// ---------------------------------------------------------------------------

/// There are as many thumbnails as whole intervals fit into a source, and one where none does.
pub proof fn law_thumbnails_are_counted_by_intervals(duration: Time, every: Time)
    requires
        duration.wf(),
        every.wf(),
        every.secs.num > 0,
    ensures
        ({
            let n = thumbnail_count(duration, every);
            let length = duration.secs.num * every.secs.den;
            let interval = every.secs.num * duration.secs.den;
            &&& n >= 1
            &&& length < (n + 1) * interval
            &&& n > 1 || length >= interval ==> n * interval <= length
        }),
{
    let (length, interval) = (
        duration.secs.num * every.secs.den,
        duration.secs.den * every.secs.num,
    );
    assert(every.secs.num * duration.secs.den == interval) by (nonlinear_arith)
        requires
            interval == duration.secs.den * every.secs.num,
    ;
    assert(interval > 0) by (nonlinear_arith)
        requires
            duration.secs.den > 0,
            every.secs.num > 0,
            interval == duration.secs.den * every.secs.num,
    ;
    let q = floor(length, interval);
    vstd::arithmetic::div_mod::lemma_fundamental_div_mod(length, interval);
    vstd::arithmetic::div_mod::lemma_mod_bound(length, interval);
    assert(q * interval <= length < (q + 1) * interval) by (nonlinear_arith)
        requires
            length == interval * q + length % interval,
            0 <= length % interval < interval,
    ;
    if q < 1 {
        assert(length < interval) by (nonlinear_arith)
            requires
                length < (q + 1) * interval,
                q < 1,
                interval > 0,
        ;
    }
}

/// A thumbnail is taken so many intervals after the start.
pub proof fn law_a_thumbnail_is_so_many_intervals_in(every: Time, index: int)
    requires
        every.wf(),
        0 <= index <= i64::MAX,
        every.product_fits(Rat { num: index as i64, den: 1 }),
    ensures
        thumbnail_time(every, index).secs.is(every.secs.num * index, every.secs.den as int),
{
    Rat::lemma_of(every.secs.num * index, every.secs.den * 1);
    assert(every.secs.den * 1 == every.secs.den);
}

/// As many samples of 8000 in a second go into a bucket as buckets in a second allow, and one at least.
pub proof fn law_a_bucket_holds_its_share(buckets_per_second: u32)
    requires
        buckets_per_second > 0,
    ensures
        ({
            let n = bucket_samples(buckets_per_second);
            &&& n >= 1
            &&& 8000 < (n + 1) * buckets_per_second
            &&& buckets_per_second <= 8000 ==> n * buckets_per_second <= 8000
        }),
{
    let b = buckets_per_second as int;
    let q = 8000int / b;
    vstd::arithmetic::div_mod::lemma_fundamental_div_mod(8000, b);
    vstd::arithmetic::div_mod::lemma_mod_bound(8000, b);
    assert(q * b <= 8000 < (q + 1) * b) by (nonlinear_arith)
        requires
            8000 == b * q + 8000int % b,
            0 <= 8000int % b < b,
    ;
    assert(q < 1 ==> b > 8000) by (nonlinear_arith)
        requires
            8000 < (q + 1) * b,
            b > 0,
    ;
    let n = bucket_samples(buckets_per_second);
    assert(8000 < (n + 1) * b && (b <= 8000 ==> n * b <= 8000)) by (nonlinear_arith)
        requires
            n == q && q * b <= 8000 < (q + 1) * b || n == 1 && b > 8000,
    ;
}

// ---------------------------------------------------------------------------
// Sheets and labels
// ---------------------------------------------------------------------------

/// A sheet has as many rows as its cells need and no more, and one where it has none.
pub proof fn law_rows_hold_the_cells(cells: int, columns: int)
    requires
        cells >= 0,
        columns > 0,
    ensures
        cells <= rows_of(cells, columns) * columns,
        cells > 0 ==> (rows_of(cells, columns) - 1) * columns < cells,
        cells == 0 ==> rows_of(cells, columns) == 1,
{
    let q = (cells + columns - 1) / columns;
    vstd::arithmetic::div_mod::lemma_fundamental_div_mod(cells + columns - 1, columns);
    vstd::arithmetic::div_mod::lemma_mod_bound(cells + columns - 1, columns);
    assert(cells <= q * columns && (q - 1) * columns < cells) by (nonlinear_arith)
        requires
            cells + columns - 1 == columns * q + (cells + columns - 1) % columns,
            0 <= (cells + columns - 1) % columns < columns,
    ;
}

/// The cells of a row fit into the width of a sheet, and one more pixel each would not, unless they
/// would be narrower than 16 pixels; a cell has the shape of the frame.
pub proof fn law_cells_share_the_width(width: u32, columns: u32, frame: [u32; 2])
    requires
        columns > 0,
        frame@[0] > 0,
    ensures
        ({
            let w = cell_width(width, columns);
            let h = cell_height(w, frame);
            &&& w >= 16 && h >= 16
            &&& width < (w + 1) * columns
            &&& width >= 16 * columns ==> w * columns <= width
            &&& 16 < h < u32::MAX ==> is_nearest(w * frame@[1], frame@[0] as int, h)
        }),
{
    let (n, c) = (width as int, columns as int);
    let q = n / c;
    vstd::arithmetic::div_mod::lemma_fundamental_div_mod(n, c);
    vstd::arithmetic::div_mod::lemma_mod_bound(n, c);
    assert(q * c <= n < (q + 1) * c) by (nonlinear_arith)
        requires
            n == c * q + n % c,
            0 <= n % c < c,
    ;
    let w = cell_width(width, columns);
    assert((q + 1) * c <= (w + 1) * c) by (nonlinear_arith)
        requires
            q <= w,
            c > 0,
    ;
    assert(n >= 16 * c ==> q >= 16) by (nonlinear_arith)
        requires
            n < (q + 1) * c,
            c > 0,
    ;
    law_rounding_gives_the_nearest(w * frame@[1], frame@[0] as int);
}

/// A label's band reaches the bottom of its picture, is taller where there are two lines, and its type
/// is an eleventh of the height, but nine pixels at least.
pub proof fn law_a_label_can_be_read(height: int)
    requires
        height > 0,
    ensures
        label_size(height) >= 9 * 1100,
        height >= 99 ==> 11 * label_size(height) == height * 1100,
        label_band(height, true) > label_band(height, false) > 0,
{
}

/// A box around a layer that lies in the frame is where the layer is.
pub proof fn law_a_box_is_where_its_layer_is(width: int, height: int, layer: Layer)
    requires
        width > 0,
        height > 0,
        0 <= layer.x,
        0 <= layer.y,
        layer.w >= 1_000_000,
        layer.h >= 1_000_000,
        layer.x + layer.w <= width * 1_000_000,
        layer.y + layer.h <= height * 1_000_000,
    ensures
        box_of(width, height, layer) == (
            layer.x as int,
            layer.y as int,
            layer.x + layer.w,
            layer.y + layer.h,
        ),
        badge_size(height) >= 14_000_000,
        stroke_size(height) >= 2_000_000,
        height >= 500 ==> badge_size(height) * 1000 == height * 35_000_000 && stroke_size(height)
            * 1000 == height * 4_000_000,
{
}

/// Escaped text holds none of the characters that end an attribute or begin a tag.
pub proof fn law_escaped_text_cannot_end_its_attribute(text: Seq<char>, i: int)
    requires
        0 <= i < xml_escaped(text).len(),
    ensures
        xml_escaped(text)[i] != '<',
        xml_escaped(text)[i] != '>',
        xml_escaped(text)[i] != '"',
        xml_escaped(text)[i] != '\'',
    decreases text.len(),
{
    let before = xml_escaped(text.drop_last());
    if i < before.len() {
        law_escaped_text_cannot_end_its_attribute(text.drop_last(), i);
    } else {
        reveal_strlit("&amp;");
        reveal_strlit("&lt;");
        reveal_strlit("&gt;");
        reveal_strlit("&quot;");
        reveal_strlit("&apos;");
        let last = escape_char(text.last());
        assert(xml_escaped(text)[i] == last[i - before.len()]);
    }
}

/// Text is escaped character by character, and what needs no escape stands for itself.
pub proof fn law_plain_text_stands_for_itself(text: Seq<char>, c: char)
    ensures
        xml_escaped(Seq::<char>::empty()) == Seq::<char>::empty(),
        c != '&' && c != '<' && c != '>' && c != '"' && c != '\'' ==> xml_escaped(text.push(c))
            == xml_escaped(text).push(c),
        c == '&' ==> xml_escaped(text.push(c)) == xml_escaped(text) + "&amp;"@,
        c == '<' ==> xml_escaped(text.push(c)) == xml_escaped(text) + "&lt;"@,
        c == '>' ==> xml_escaped(text.push(c)) == xml_escaped(text) + "&gt;"@,
        c == '"' ==> xml_escaped(text.push(c)) == xml_escaped(text) + "&quot;"@,
        c == '\'' ==> xml_escaped(text.push(c)) == xml_escaped(text) + "&apos;"@,
{
    assert(text.push(c).drop_last() =~= text);
    assert(xml_escaped(text) + seq![c] =~= xml_escaped(text).push(c));
}

// ---------------------------------------------------------------------------
// Pictures
// ---------------------------------------------------------------------------

/// A picture is shown with square pixels, and turned: by a quarter its sides change places, by a half
/// they do not.
pub proof fn law_a_turned_picture_changes_its_sides(stream: VideoStream)
    requires
        stream.sar.wf(),
        stream.sar.num > 0,
        stream.sar.num <= stream.sar.den,
    ensures
        ({
            let shown = stream.shown_size()@;
            let upright = stream.rotation as int % 180 == 0;
            &&& upright ==> shown[1] == stream.size@[1] && is_nearest(
                stream.size@[0] * stream.sar.num,
                stream.sar.den as int,
                shown[0] as int,
            )
            &&& !upright ==> shown[0] == stream.size@[1] && is_nearest(
                stream.size@[0] * stream.sar.num,
                stream.sar.den as int,
                shown[1] as int,
            )
            &&& stream.sar.num == stream.sar.den && upright ==> shown[0] == stream.size@[0]
        }),
{
    let (n, d) = (stream.size@[0] * stream.sar.num, stream.sar.den as int);
    law_rounding_gives_the_nearest(n, d);
    let r = crate::rational::round_half_away(n, d);
    let s = stream.size@[0] as int;
    assert(0 <= n <= s * d) by (nonlinear_arith)
        requires
            n == s * stream.sar.num,
            0 < stream.sar.num <= d,
            s >= 0,
    ;
    assert(0 <= r <= s) by (nonlinear_arith)
        requires
            -d <= 2 * (n - r * d) <= d,
            0 <= n <= s * d,
            d > 0,
    ;
    if stream.sar.num == stream.sar.den {
        assert(n == s * d);
        assert(r == s) by (nonlinear_arith)
            requires
                -d <= 2 * (n - r * d) <= d,
                n == s * d,
                d > 0,
        ;
    }
}

/// A decoder starts anew exactly if nothing runs, the picture is behind the one it last gave, or it is
/// more than 48 pictures ahead; and nothing is asked for before the start.
pub proof fn law_a_decoder_seeks_back_or_far(st: DecodeState, at: Time)
    requires
        at.wf(),
    ensures
        st.must_seek(at) <==> !st.running || st.index_of(at) + 1 < st.emitted || st.index_of(at)
            - st.emitted > 48,
        at.secs.num >= 0 ==> DecodeState::asked(at) == at || DecodeState::asked(at).secs.num == 0
            && at.secs.num == 0,
        at.secs.num < 0 ==> DecodeState::asked(at).secs.num == 0,
{
}

} // verus!
