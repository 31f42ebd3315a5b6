//! Decoding: one ffmpeg process per open source, read in order.
//!
//! Reading forward a little is cheaper than a seek, so the process is started again only to
//! go back or far ahead. The filter chain states range and matrix on every decode.

use crate::error::{Error, ErrorView};
use crate::number::{push_rounded, rounded_text};
use crate::project::{ColorMatrix, ColorRange, VideoStream};
use crate::text::{dec, decimal, push_pair, push_text, strings};
use crate::time::{Fps, Time};
use vstd::prelude::*;

verus! {

/// Reading forward this many frames is cheaper than a seek.
pub const FORWARD_SCAN_LIMIT: i64 = 48;

/// What is asked of a decoder.
#[derive(Clone, Copy, Debug)]
pub struct DecodeSpec {
    /// Size of the pictures handed out.
    pub size: [u32; 2],
    /// Their rate, which is constant.
    pub fps: Fps,
    pub range: ColorRange,
    pub matrix: ColorMatrix,
    pub scaler: &'static str,
}

/// The matrix that is assumed: as flagged, else by resolution.
pub open spec fn matrix_name(matrix: ColorMatrix, height: u32) -> Seq<char> {
    match matrix {
        ColorMatrix::Bt709 => "bt709"@,
        ColorMatrix::Bt601 => "bt601"@,
        ColorMatrix::Bt2020Ncl => "bt2020ncl"@,
        ColorMatrix::Smpte240m => "smpte240m"@,
        ColorMatrix::Unknown => if height >= 720 {
            "bt709"@
        } else {
            "bt601"@
        },
    }
}

/// The range that is assumed: limited unless flagged otherwise.
pub open spec fn range_name(range: ColorRange) -> Seq<char> {
    if range == ColorRange::Pc {
        "full"@
    } else {
        "limited"@
    }
}

pub open spec fn chain_text(spec_: DecodeSpec) -> Seq<char> {
    "fps="@ + spec_.fps.text() + ",scale="@ + dec(spec_.size@[0] as nat) + ":"@ + dec(
        spec_.size@[1] as nat,
    ) + ":flags="@ + spec_.scaler@ + ":in_range="@ + range_name(spec_.range) + ":in_color_matrix="@
        + matrix_name(spec_.matrix, spec_.size@[1]) + ":out_range=full,format=rgba"@
}

impl DecodeSpec {
    /// A stream at the size it is shown at.
    pub fn for_stream(stream: &VideoStream, fps: Fps) -> (r: DecodeSpec)
        requires
            stream.sar.wf(),
        ensures
            r.size == stream.shown_size(),
            r.fps == fps,
            r.range == stream.color_range,
            r.matrix == stream.color_matrix,
            r.scaler@ == "bicubic"@,
    {
        DecodeSpec {
            size: stream.display_size(),
            fps,
            range: stream.color_range,
            matrix: stream.color_matrix,
            scaler: "bicubic",
        }
    }

    pub fn at_size(self, size: [u32; 2]) -> (r: DecodeSpec)
        ensures
            r == (DecodeSpec { size, ..self }),
    {
        DecodeSpec { size, fps: self.fps, range: self.range, matrix: self.matrix, scaler: self.scaler }
    }

    pub fn filter_chain(&self) -> (r: String)
        ensures
            r@ == chain_text(*self),
    {
        let matrix: &str = match self.matrix {
            ColorMatrix::Bt709 => "bt709",
            ColorMatrix::Bt601 => "bt601",
            ColorMatrix::Bt2020Ncl => "bt2020ncl",
            ColorMatrix::Smpte240m => "smpte240m",
            ColorMatrix::Unknown => if self.size[1] >= 720 {
                "bt709"
            } else {
                "bt601"
            },
        };
        let range: &str = match self.range {
            ColorRange::Pc => "full",
            _ => "limited",
        };
        let mut out = "fps=".to_owned();
        out.append(self.fps.ffmpeg_arg().as_str());
        out.append(",scale=");
        out.append(decimal(self.size[0] as u128).as_str());
        out.append(":");
        out.append(decimal(self.size[1] as u128).as_str());
        out.append(":flags=");
        out.append(self.scaler);
        out.append(":in_range=");
        out.append(range);
        out.append(":in_color_matrix=");
        out.append(matrix);
        out.append(":out_range=full,format=rgba");
        assert(out@ =~= chain_text(*self));
        out
    }

    /// How many bytes a picture takes.
    pub fn frame_bytes(&self) -> (r: u128)
        ensures
            r == self.size@[0] * self.size@[1] * 4,
    {
        let w: u128 = self.size[0] as u128;
        let h: u128 = self.size[1] as u128;
        assert(0 <= w * h <= 0xffff_ffff * 0xffff_ffff) by (nonlinear_arith)
            requires
                0 <= w <= 0xffff_ffff,
                0 <= h <= 0xffff_ffff,
        ;
        w * h * 4
    }
}

// ---------------------------------------------------------------------------
// When to read and when to seek
// ---------------------------------------------------------------------------

/// What a decoder knows of its process and of the pictures it has seen.
#[derive(Clone, Copy, Debug, PartialEq, Eq, Structural)]
pub struct DecodeState {
    pub fps: Fps,
    pub running: bool,
    /// Source time of the first picture of the current process.
    pub origin: Time,
    /// Pictures read from the current process.
    pub emitted: i64,
    /// Whether the current process has handed out a picture.
    pub has_last: bool,
    /// Whether any process has.
    pub has_held: bool,
    pub exhausted: bool,
    /// How often a process was started.
    pub seeks: u32,
}

/// How a request begins: with a process to start, if one is needed, and the number of the
/// picture that is asked for, counted from its first.
#[derive(Clone, Copy, Debug, PartialEq, Eq, Structural)]
pub struct Begin {
    pub spawn: Option<Time>,
    pub wanted: i64,
}

/// Which picture answers a request.
#[derive(Clone, Copy, Debug, PartialEq, Eq, Structural)]
pub enum Picture {
    /// The last one of the current process.
    Last,
    /// The last one of any process.
    Held,
    Transparent,
}

impl DecodeState {
    pub open spec fn wf(self) -> bool {
        &&& self.fps.wf()
        &&& self.origin.wf()
        &&& 0 <= self.emitted < i64::MAX - FORWARD_SCAN_LIMIT
        &&& self.has_last ==> self.has_held
        &&& self.has_last <==> self.emitted > 0
    }

    /// The instant asked for: nothing is before the start.
    pub open spec fn asked(at: Time) -> Time {
        at.spec_max(Time::zero_spec())
    }

    /// The picture that covers an instant, counted from the first of the process.
    pub open spec fn index_of(self, at: Time) -> int {
        at.spec_minus(self.origin).floor_frame(self.fps)
    }

    /// Whether the current process cannot answer: there is none, the picture is behind it,
    /// or too far ahead.
    pub open spec fn must_seek(self, at: Time) -> bool {
        ||| !self.running
        ||| self.index_of(at) < self.emitted - 1
        ||| self.index_of(at) > self.emitted + FORWARD_SCAN_LIMIT
    }

    /// Where a process starts for an instant: on the grid, at the frame that covers it.
    pub open spec fn aligned(self, at: Time) -> Time {
        Time::of_frames(at.floor_frame(self.fps), self.fps)
    }

    /// Whether a request can be counted in frames.
    pub open spec fn fits(self, at: Time) -> bool {
        let t = DecodeState::asked(at);
        &&& at.wf()
        &&& i64::MIN <= t.floor_frame(self.fps) <= i64::MAX
        &&& Time::frames_fit(t.floor_frame(self.fps), self.fps)
        &&& self.running ==> t.difference_fits(self.origin) && i64::MIN <= self.index_of(t)
            <= i64::MAX
    }

    pub open spec fn after_seek(self, at: Time) -> DecodeState {
        DecodeState {
            fps: self.fps,
            running: true,
            origin: self.aligned(at),
            emitted: 0,
            has_last: false,
            has_held: self.has_held,
            exhausted: false,
            seeks: if self.seeks == u32::MAX {
                u32::MAX
            } else {
                (self.seeks + 1) as u32
            },
        }
    }

    pub fn open(fps: Fps) -> (r: DecodeState)
        requires
            fps.wf(),
        ensures
            r.wf(),
            r == (DecodeState {
                fps,
                running: false,
                origin: Time::zero_spec(),
                emitted: 0,
                has_last: false,
                has_held: false,
                exhausted: false,
                seeks: 0,
            }),
    {
        DecodeState {
            fps,
            running: false,
            origin: Time::zero(),
            emitted: 0,
            has_last: false,
            has_held: false,
            exhausted: false,
            seeks: 0,
        }
    }

    /// Begins a request for the picture that covers an instant.
    pub fn begin(&mut self, at: Time) -> (r: Begin)
        requires
            old(self).wf(),
            old(self).fits(at),
        ensures
            final(self).wf(),
            ({
                let t = DecodeState::asked(at);
                if old(self).must_seek(t) {
                    &&& r == (Begin { spawn: Some(old(self).aligned(t)), wanted: 0 })
                    &&& *final(self) == old(self).after_seek(t)
                } else {
                    &&& r.spawn is None
                    &&& r.wanted == old(self).index_of(t)
                    &&& *final(self) == *old(self)
                    &&& old(self).emitted - 1 <= r.wanted <= old(self).emitted + FORWARD_SCAN_LIMIT
                }
            }),
    {
        let t = at.max(Time::zero());
        let wanted: i64 = if self.running {
            t.minus(&self.origin).frame_floor(self.fps)
        } else {
            0
        };
        if !self.running || wanted < self.emitted - 1 || wanted > self.emitted + FORWARD_SCAN_LIMIT {
            let aligned = Time::from_frames(t.frame_floor(self.fps), self.fps);
            self.running = true;
            self.origin = aligned;
            self.emitted = 0;
            self.has_last = false;
            self.exhausted = false;
            if self.seeks < u32::MAX {
                self.seeks = self.seeks + 1;
            }
            return Begin { spawn: Some(aligned), wanted: 0 };
        }
        Begin { spawn: None, wanted }
    }

    /// Whether another picture has to be read before the request is answered.
    pub fn reads_on(&self, wanted: i64) -> (r: bool)
        ensures
            r == (self.emitted <= wanted && !self.exhausted),
    {
        self.emitted <= wanted && !self.exhausted
    }

    /// A picture was read.
    pub fn got_frame(&mut self)
        requires
            old(self).wf(),
            old(self).emitted < i64::MAX - FORWARD_SCAN_LIMIT - 1,
        ensures
            final(self).wf(),
            *final(self) == (DecodeState {
                emitted: (old(self).emitted + 1) as i64,
                has_last: true,
                has_held: true,
                ..*old(self)
            }),
    {
        self.emitted = self.emitted + 1;
        self.has_last = true;
        self.has_held = true;
    }

    /// The source ran out.
    pub fn ended(&mut self)
        requires
            old(self).wf(),
        ensures
            final(self).wf(),
            *final(self) == (DecodeState { exhausted: true, ..*old(self) }),
    {
        self.exhausted = true;
    }

    /// The picture that answers: past the end of the source the last one is held.
    pub fn picture(&self) -> (r: Picture)
        ensures
            r == (if self.has_last {
                Picture::Last
            } else if self.has_held {
                Picture::Held
            } else {
                Picture::Transparent
            }),
    {
        if self.has_last {
            Picture::Last
        } else if self.has_held {
            Picture::Held
        } else {
            Picture::Transparent
        }
    }
}

/// Once a picture has been read, no request is answered with an empty one, whatever seeks
/// happen and however soon the source runs out.
pub proof fn law_a_picture_is_held(st: DecodeState, at: Time)
    requires
        st.wf(),
        st.has_held,
    ensures
        st.after_seek(at).has_held,
{
}

/// Reading frames in order never seeks again: the next picture, or one a little further, is
/// read from the process that is running.
pub proof fn law_reading_in_order_does_not_seek(st: DecodeState, at: Time)
    requires
        st.wf(),
        st.running,
        st.emitted - 1 <= st.index_of(at) <= st.emitted + FORWARD_SCAN_LIMIT,
    ensures
        !st.must_seek(at),
{
}

/// A seek lands on the picture it was made for: the first one of the new process covers the
/// instant asked for.
pub proof fn law_a_seek_lands_on_its_picture(st: DecodeState, at: Time)
    requires
        st.wf(),
        at.wf(),
        Time::frames_fit(at.floor_frame(st.fps), st.fps),
        at.difference_fits(st.aligned(at)),
    ensures
        st.after_seek(at).index_of(at) == 0,
{
    let (tn, td) = (at.secs.num as int, at.secs.den as int);
    let (rn, rd) = (st.fps.rate.num as int, st.fps.rate.den as int);
    let n = tn * rn;
    let d = td * rd;
    assert(d > 0) by (nonlinear_arith)
        requires
            td > 0,
            rd > 0,
            d == td * rd,
    ;
    let k = n / d;
    let rest = n % d;
    vstd::arithmetic::div_mod::lemma_fundamental_div_mod(n, d);
    vstd::arithmetic::div_mod::lemma_mod_bound(n, d);
    crate::rational::Rat::lemma_of(k * rd, rn);
    let origin = st.aligned(at).secs;
    let (a, b) = (origin.num as int, origin.den as int);
    assert(a * rn == k * rd * b);
    let top = tn * b - a * td;
    let bottom = td * b;
    assert(bottom > 0) by (nonlinear_arith)
        requires
            td > 0,
            b > 0,
            bottom == td * b,
    ;
    crate::rational::Rat::lemma_of(top, bottom);
    let left = at.spec_minus(st.aligned(at)).secs;
    let (x, y) = (left.num as int, left.den as int);
    assert(x * bottom == top * y);
    assert((tn * b - a * td) * rn == b * (tn * rn) - td * (a * rn)) by (nonlinear_arith);
    assert(td * (k * rd * b) == b * (k * (td * rd))) by (nonlinear_arith);
    assert(b * n - b * (k * d) == b * (n - k * d)) by (nonlinear_arith);
    assert(k * d == d * k) by (nonlinear_arith);
    assert(top * rn == b * rest);
    assert((x * rn) * bottom == y * b * rest) by (nonlinear_arith)
        requires
            x * bottom == top * y,
            top * rn == b * rest,
    ;
    let e = y * rd;
    assert(e > 0) by (nonlinear_arith)
        requires
            y > 0,
            rd > 0,
            e == y * rd,
    ;
    assert(0 <= x * rn) by (nonlinear_arith)
        requires
            (x * rn) * bottom == y * b * rest,
            bottom > 0,
            y > 0,
            b > 0,
            rest >= 0,
    ;
    assert(x * rn < e) by (nonlinear_arith)
        requires
            (x * rn) * bottom == y * b * rest,
            rest < d,
            d == td * rd,
            bottom == td * b,
            e == y * rd,
            y > 0,
            b > 0,
            bottom > 0,
    ;
    vstd::arithmetic::div_mod::lemma_fundamental_div_mod_converse(x * rn, e, 0, x * rn);
}

// ---------------------------------------------------------------------------
// What ffmpeg handed over
// ---------------------------------------------------------------------------

/// What a read from the process turned out to be.
#[derive(Clone, Copy, Debug, PartialEq, Eq, Structural)]
pub enum Read {
    Frame,
    End,
}

pub open spec fn partial_frame(filled: int, bytes: int, path: Seq<char>) -> ErrorView {
    ErrorView::Tool {
        tool: "ffmpeg"@,
        detail: "decoder returned a partial frame ("@ + dec(filled as nat) + " of "@ + dec(
            bytes as nat,
        ) + " bytes) for '"@ + path + "'"@,
    }
}

pub open spec fn decoding_failed(path: Seq<char>, stderr: Seq<char>) -> ErrorView {
    ErrorView::Tool {
        tool: "ffmpeg"@,
        detail: "decoding '"@ + path + "' failed: "@ + crate::text::trim(stderr),
    }
}

/// What `filled` of `bytes` bytes are. Where there are none, the process has ended, and
/// `failure` is what it said if it did not end well.
pub fn read_outcome(filled: u128, bytes: u128, path: &str, failure: Option<&str>) -> (r: Result<
    Read,
    Error,
>)
    ensures
        (match r {
            Ok(Read::Frame) => filled > 0 && filled >= bytes,
            Ok(Read::End) => filled == 0 && failure is None,
            Err(error) => {
                ||| filled == 0 && failure is Some && error@ == decoding_failed(
                    path@,
                    failure->0@,
                )
                ||| 0 < filled < bytes && error@ == partial_frame(
                    filled as int,
                    bytes as int,
                    path@,
                )
            },
        }),
{
    if filled == 0 {
        return match failure {
            None => Ok(Read::End),
            Some(stderr) => {
                let mut detail = "decoding '".to_owned();
                detail.append(path);
                detail.append("' failed: ");
                detail.append(crate::text::trimmed_text(stderr).as_str());
                Err(Error::tool("ffmpeg", detail.as_str()))
            },
        };
    }
    if filled < bytes {
        let mut detail = "decoder returned a partial frame (".to_owned();
        detail.append(decimal(filled).as_str());
        detail.append(" of ");
        detail.append(decimal(bytes).as_str());
        detail.append(" bytes) for '");
        detail.append(path);
        detail.append("'");
        return Err(Error::tool("ffmpeg", detail.as_str()));
    }
    Ok(Read::Frame)
}

// ---------------------------------------------------------------------------
// Arguments
// ---------------------------------------------------------------------------

/// Seconds to six decimals.
pub open spec fn seconds_text(at: Time) -> Seq<char> {
    rounded_text(at.secs, 6)
}

fn seconds(at: Time) -> (r: String)
    requires
        at.wf(),
    ensures
        r@ == seconds_text(at),
{
    let mut out = String::new();
    push_rounded(&mut out, at.secs, 6);
    assert(out@ =~= seconds_text(at));
    out
}

/// The arguments that make ffmpeg decode a source from an instant on.
pub open spec fn decoder_args(spec_: DecodeSpec, path: Seq<char>, from: Time) -> Seq<Seq<char>> {
    (if from.secs.num > 0 {
        seq!["-ss"@, seconds_text(from)]
    } else {
        seq![]
    }) + seq![
        "-i"@,
        path,
        "-an"@,
        "-sn"@,
        "-dn"@,
        "-vf"@,
        chain_text(spec_),
        "-f"@,
        "rawvideo"@,
        "-pix_fmt"@,
        "rgba"@,
        "-"@,
    ]
}

pub fn decode_args(spec_: &DecodeSpec, path: &str, from: Time) -> (r: Vec<String>)
    requires
        from.wf(),
    ensures
        strings(r@) == decoder_args(*spec_, path@, from),
{
    let mut out: Vec<String> = Vec::new();
    if from.is_positive() {
        push_pair(&mut out, "-ss", seconds(from).as_str());
    }
    push_pair(&mut out, "-i", path);
    push_pair(&mut out, "-an", "-sn");
    push_text(&mut out, "-dn");
    push_pair(&mut out, "-vf", spec_.filter_chain().as_str());
    push_pair(&mut out, "-f", "rawvideo");
    push_pair(&mut out, "-pix_fmt", "rgba");
    push_text(&mut out, "-");
    assert(strings(out@) =~= decoder_args(*spec_, path@, from));
    out
}

/// The arguments that make ffmpeg decode one image.
pub open spec fn still_args(path: Seq<char>) -> Seq<Seq<char>> {
    seq![
        "-i"@,
        path,
        "-vframes"@,
        "1"@,
        "-vf"@,
        "format=rgba"@,
        "-f"@,
        "rawvideo"@,
        "-pix_fmt"@,
        "rgba"@,
        "-"@,
    ]
}

pub fn image_args(path: &str) -> (r: Vec<String>)
    ensures
        strings(r@) == still_args(path@),
{
    let mut out: Vec<String> = Vec::new();
    push_pair(&mut out, "-i", path);
    push_pair(&mut out, "-vframes", "1");
    push_pair(&mut out, "-vf", "format=rgba");
    push_pair(&mut out, "-f", "rawvideo");
    push_pair(&mut out, "-pix_fmt", "rgba");
    push_text(&mut out, "-");
    assert(strings(out@) =~= still_args(path@));
    out
}

/// The size of a decoded image, or why its bytes are not one.
pub fn image_size(path: &str, video: Option<&VideoStream>, bytes: u128) -> (r: Result<
    [u32; 2],
    Error,
>)
    requires
        video is Some ==> video->0.sar.wf(),
    ensures
        (match r {
            Ok(size) => video is Some && size == video->0.shown_size() && bytes >= size@[0]
                * size@[1] * 4,
            Err(error) => match video {
                None => error@ == (ErrorView::Tool {
                    tool: "ffmpeg"@,
                    detail: "'"@ + path@ + "' has no image stream"@,
                }),
                Some(stream) => {
                    let size = stream.shown_size();
                    &&& bytes < size@[0] * size@[1] * 4
                    &&& error@ == (ErrorView::Tool {
                        tool: "ffmpeg"@,
                        detail: "image '"@ + path@ + "' decoded to "@ + dec(bytes as nat)
                            + " bytes, expected "@ + dec((size@[0] * size@[1] * 4) as nat),
                    })
                },
            },
        }),
{
    match video {
        None => {
            let mut detail = "'".to_owned();
            detail.append(path);
            detail.append("' has no image stream");
            Err(Error::tool("ffmpeg", detail.as_str()))
        },
        Some(stream) => {
            let size = stream.display_size();
            let w: u128 = size[0] as u128;
            let h: u128 = size[1] as u128;
            assert(0 <= w * h <= 0xffff_ffff * 0xffff_ffff) by (nonlinear_arith)
                requires
                    0 <= w <= 0xffff_ffff,
                    0 <= h <= 0xffff_ffff,
            ;
            let expected: u128 = w * h * 4;
            if bytes < expected {
                let mut detail = "image '".to_owned();
                detail.append(path);
                detail.append("' decoded to ");
                detail.append(decimal(bytes).as_str());
                detail.append(" bytes, expected ");
                detail.append(decimal(expected).as_str());
                return Err(Error::tool("ffmpeg", detail.as_str()));
            }
            Ok(size)
        },
    }
}

/// The arguments that make ffmpeg decode a span of sound.
pub open spec fn sound_args(
    path: Seq<char>,
    start: Time,
    duration: Time,
    rate: u32,
    channels: u16,
) -> Seq<Seq<char>> {
    seq![
        "-ss"@,
        seconds_text(start),
        "-i"@,
        path,
        "-t"@,
        seconds_text(duration),
        "-vn"@,
        "-sn"@,
        "-dn"@,
        "-ar"@,
        dec(rate as nat),
        "-ac"@,
        dec(channels as nat),
        "-f"@,
        "f32le"@,
        "-acodec"@,
        "pcm_f32le"@,
        "-"@,
    ]
}

pub fn audio_args(path: &str, start: Time, duration: Time, rate: u32, channels: u16) -> (r: Vec<String>)
    requires
        start.wf(),
        duration.wf(),
    ensures
        strings(r@) == sound_args(path@, start, duration, rate, channels),
{
    let mut out: Vec<String> = Vec::new();
    push_pair(&mut out, "-ss", seconds(start).as_str());
    push_pair(&mut out, "-i", path);
    push_pair(&mut out, "-t", seconds(duration).as_str());
    push_pair(&mut out, "-vn", "-sn");
    push_text(&mut out, "-dn");
    push_pair(&mut out, "-ar", decimal(rate as u128).as_str());
    push_pair(&mut out, "-ac", decimal(channels as u128).as_str());
    push_pair(&mut out, "-f", "f32le");
    push_pair(&mut out, "-acodec", "pcm_f32le");
    push_text(&mut out, "-");
    assert(strings(out@) =~= sound_args(path@, start, duration, rate, channels));
    out
}

/// How many samples a span of sound has, over all channels: what is decoded is padded or cut
/// to this.
pub fn wanted_samples(duration: Time, rate: u32, channels: u16) -> (r: i128)
    requires
        duration.wf(),
        i64::MIN <= duration.round_sample(rate) <= i64::MAX,
    ensures
        r == duration.round_sample(rate) * channels,
{
    let frames: i64 = duration.sample_round(rate);
    assert(-0x8000_0000_0000_0000 * 0xffff <= frames * channels <= 0x7fff_ffff_ffff_ffff * 0xffff)
        by (nonlinear_arith)
        requires
            -0x8000_0000_0000_0000 <= frames <= 0x7fff_ffff_ffff_ffff,
            0 <= channels <= 0xffff,
    ;
    (frames as i128) * (channels as i128)
}

/// The arguments that make ffmpeg write a synthetic test source.
pub open spec fn test_source_args(
    source: Seq<char>,
    path: Seq<char>,
    duration: Time,
    fps: Fps,
    size: [u32; 2],
) -> Seq<Seq<char>> {
    seq![
        "-f"@,
        "lavfi"@,
        "-i"@,
        source + "=size="@ + dec(size@[0] as nat) + "x"@ + dec(size@[1] as nat) + ":rate="@
            + fps.text() + ":duration="@ + rounded_text(duration.secs, 4),
        "-c:v"@,
        "libx264"@,
        "-preset"@,
        "ultrafast"@,
        "-crf"@,
        "18"@,
        "-pix_fmt"@,
        "yuv420p"@,
        path,
    ]
}

pub fn synthesize_args(source: &str, path: &str, duration: Time, fps: Fps, size: [u32; 2]) -> (r: Vec<
    String,
>)
    requires
        duration.wf(),
    ensures
        strings(r@) == test_source_args(source@, path@, duration, fps, size),
{
    let mut input = source.to_owned();
    input.append("=size=");
    input.append(decimal(size[0] as u128).as_str());
    input.append("x");
    input.append(decimal(size[1] as u128).as_str());
    input.append(":rate=");
    input.append(fps.ffmpeg_arg().as_str());
    input.append(":duration=");
    push_rounded(&mut input, duration.secs, 4);
    let mut out: Vec<String> = Vec::new();
    push_pair(&mut out, "-f", "lavfi");
    push_pair(&mut out, "-i", input.as_str());
    push_pair(&mut out, "-c:v", "libx264");
    push_pair(&mut out, "-preset", "ultrafast");
    push_pair(&mut out, "-crf", "18");
    push_pair(&mut out, "-pix_fmt", "yuv420p");
    push_text(&mut out, path);
    assert(strings(out@) =~= test_source_args(source@, path@, duration, fps, size));
    out
}

} // verus!
