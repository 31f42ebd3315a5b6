//! Stand-ins, thumbnails and waveforms: media made from other media.

use crate::error::{Error, ErrorView};
use crate::number::{push_rounded, rounded_text};
use crate::project::Probe;
use crate::rational::{floor, floored, Rat};
use crate::text::{dec, dec_wide, decimal, push_dec_wide, push_pair, push_text, strings};
use crate::time::{Fps, Time};
use vstd::prelude::*;

verus! {

/// Height of a stand-in.
pub const PROXY_HEIGHT: u32 = 540;

/// What a stand-in is made like.
#[derive(Clone, Copy, Debug, PartialEq, Eq, Structural)]
pub struct ProxySpec {
    pub height: u32,
    /// Its rate, which is constant.
    pub fps: Fps,
    pub quality: u32,
}

/// The rate of a source, or another where it has no picture.
pub open spec fn source_rate(probe: Probe, other: Fps) -> Fps {
    match probe.video {
        Some(stream) => stream.fps,
        None => other,
    }
}

impl ProxySpec {
    pub fn for_probe(probe: &Probe, fallback: Fps) -> (r: ProxySpec)
        ensures
            r == (ProxySpec {
                height: PROXY_HEIGHT,
                fps: source_rate(*probe, fallback),
                quality: 26,
            }),
    {
        let fps = match &probe.video {
            Some(stream) => stream.fps,
            None => fallback,
        };
        ProxySpec { height: PROXY_HEIGHT, fps, quality: 26 }
    }
}

/// Whether a source needs a stand-in: where its timing varies, or it is too large to work
/// with.
pub open spec fn needs_proxy(probe: Probe) -> bool {
    probe.vfr || (probe.video is Some && probe.video->0.shown_size()@[1] > 1080)
}

pub fn wants_proxy(probe: &Probe) -> (r: bool)
    requires
        probe.video is Some ==> probe.video->0.sar.wf(),
    ensures
        r == needs_proxy(*probe),
{
    if probe.vfr {
        return true;
    }
    match &probe.video {
        Some(stream) => stream.display_size()[1] > 1080,
        None => false,
    }
}

/// The arguments that make ffmpeg write a stand-in.
pub open spec fn stand_in_args(source: Seq<char>, output: Seq<char>, spec_: ProxySpec) -> Seq<
    Seq<char>,
> {
    seq![
        "-i"@,
        source,
        "-vf"@,
        "fps="@ + spec_.fps.text() + ",scale=-2:"@ + dec(spec_.height as nat)
            + ":flags=bilinear"@,
        "-c:v"@,
        "libx264"@,
        "-preset"@,
        "veryfast"@,
        "-crf"@,
        dec(spec_.quality as nat),
        "-pix_fmt"@,
        "yuv420p"@,
        "-g"@,
        "30"@,
        "-c:a"@,
        "aac"@,
        "-b:a"@,
        "128k"@,
        "-ac"@,
        "2"@,
        "-movflags"@,
        "+faststart"@,
        output,
    ]
}

pub fn proxy_args(source: &str, output: &str, spec_: &ProxySpec) -> (r: Vec<String>)
    ensures
        strings(r@) == stand_in_args(source@, output@, *spec_),
{
    let mut chain = "fps=".to_owned();
    chain.append(spec_.fps.ffmpeg_arg().as_str());
    chain.append(",scale=-2:");
    chain.append(decimal(spec_.height as u128).as_str());
    chain.append(":flags=bilinear");
    let mut out: Vec<String> = Vec::new();
    push_pair(&mut out, "-i", source);
    push_pair(&mut out, "-vf", chain.as_str());
    push_pair(&mut out, "-c:v", "libx264");
    push_pair(&mut out, "-preset", "veryfast");
    push_pair(&mut out, "-crf", decimal(spec_.quality as u128).as_str());
    push_pair(&mut out, "-pix_fmt", "yuv420p");
    push_pair(&mut out, "-g", "30");
    push_pair(&mut out, "-c:a", "aac");
    push_pair(&mut out, "-b:a", "128k");
    push_pair(&mut out, "-ac", "2");
    push_pair(&mut out, "-movflags", "+faststart");
    push_text(&mut out, output);
    assert(strings(out@) =~= stand_in_args(source@, output@, *spec_));
    out
}

// ---------------------------------------------------------------------------
// Thumbnails
// ---------------------------------------------------------------------------

/// How many thumbnails a source has: one for each whole interval, and at least one.
pub open spec fn thumbnail_count(duration: Time, every: Time) -> int {
    let n = floor(duration.secs.num * every.secs.den, duration.secs.den * every.secs.num);
    if n < 1 {
        1
    } else {
        n
    }
}

/// When a thumbnail is taken.
pub open spec fn thumbnail_time(every: Time, index: int) -> Time {
    every.spec_times(Rat { num: index as i64, den: 1 })
}

/// The number of thumbnails, or why there are none.
pub fn count_thumbnails(duration: Time, every: Time) -> (r: Result<i128, Error>)
    requires
        duration.wf(),
        every.wf(),
    ensures
        r is Ok <==> every.secs.num > 0,
        r is Ok ==> r->Ok_0 == thumbnail_count(duration, every),
        r is Err ==> r->Err_0@ == ErrorView::BadArgs("thumbnail interval must be positive"@),
{
    if !every.is_positive() {
        return Err(Error::bad_args("thumbnail interval must be positive"));
    }
    proof {
        crate::rational::lemma_wide(duration.secs.num as int, every.secs.den as int);
        crate::rational::lemma_wide(duration.secs.den as int, every.secs.num as int);
        crate::rational::lemma_product_positive(duration.secs.den as int, every.secs.num as int);
    }
    let n: i128 = floored(
        (duration.secs.num as i128) * (every.secs.den as i128),
        (duration.secs.den as i128) * (every.secs.num as i128),
    );
    if n < 1 {
        Ok(1)
    } else {
        Ok(n)
    }
}

pub open spec fn thumbnail_name(stem: Seq<char>, index: int) -> Seq<char> {
    stem + "-"@ + dec_wide(index as nat, 4) + ".jpg"@
}

/// The file name of a thumbnail.
pub fn thumbnail_file(stem: &str, index: u64) -> (r: String)
    ensures
        r@ == thumbnail_name(stem@, index as int),
{
    let mut out = stem.to_owned();
    out.append("-");
    push_dec_wide(&mut out, index as u128, 4);
    out.append(".jpg");
    out
}

pub open spec fn still_args(source: Seq<char>, output: Seq<char>, at: Time, width: u32) -> Seq<
    Seq<char>,
> {
    seq![
        "-ss"@,
        rounded_text(at.secs, 4),
        "-i"@,
        source,
        "-frames:v"@,
        "1"@,
        "-vf"@,
        "scale="@ + dec(width as nat) + ":-2"@,
        "-q:v"@,
        "4"@,
        output,
    ]
}

/// The arguments that make ffmpeg write the thumbnail of an instant.
pub fn thumbnail_args(source: &str, output: &str, at: Time, width: u32) -> (r: Vec<String>)
    requires
        at.wf(),
    ensures
        strings(r@) == still_args(source@, output@, at, width),
{
    let mut when = String::new();
    push_rounded(&mut when, at.secs, 4);
    assert(when@ =~= rounded_text(at.secs, 4));
    let mut scale = "scale=".to_owned();
    scale.append(decimal(width as u128).as_str());
    scale.append(":-2");
    let mut out: Vec<String> = Vec::new();
    push_pair(&mut out, "-ss", when.as_str());
    push_pair(&mut out, "-i", source);
    push_pair(&mut out, "-frames:v", "1");
    push_pair(&mut out, "-vf", scale.as_str());
    push_pair(&mut out, "-q:v", "4");
    push_text(&mut out, output);
    assert(strings(out@) =~= still_args(source@, output@, at, width));
    out
}

/// The instant of a thumbnail.
pub fn thumbnail_at(every: Time, index: i64) -> (r: Time)
    requires
        every.wf(),
        index >= 0,
        every.product_fits(Rat { num: index, den: 1 }),
    ensures
        r == thumbnail_time(every, index as int),
        r.wf(),
{
    every.times(&Rat { num: index, den: 1 })
}

// ---------------------------------------------------------------------------
// Waveforms
// ---------------------------------------------------------------------------

/// The rate that sound is decoded at for a waveform.
pub const WAVEFORM_RATE: u32 = 8_000;

/// How many samples go into a bucket: at least one.
pub open spec fn bucket_samples(buckets_per_second: u32) -> int {
    let n = WAVEFORM_RATE as int / buckets_per_second as int;
    if n < 1 {
        1
    } else {
        n
    }
}

pub fn samples_per_bucket(buckets_per_second: u32) -> (r: Result<u32, Error>)
    ensures
        r is Ok <==> buckets_per_second > 0,
        r is Ok ==> r->Ok_0 == bucket_samples(buckets_per_second),
        r is Err ==> r->Err_0@ == ErrorView::BadArgs("buckets per second must be positive"@),
{
    if buckets_per_second == 0 {
        return Err(Error::bad_args("buckets per second must be positive"));
    }
    let n: u32 = WAVEFORM_RATE / buckets_per_second;
    if n < 1 {
        Ok(1)
    } else {
        Ok(n)
    }
}

/// How many buckets some samples fill: the last one may be short.
pub fn bucket_count(samples: u64, per_bucket: u32) -> (r: u64)
    requires
        per_bucket > 0,
    ensures
        r * per_bucket >= samples,
        samples > 0 ==> (r - 1) * per_bucket < samples,
        samples == 0 ==> r == 0,
{
    let d: u64 = per_bucket as u64;
    let q: u64 = samples / d;
    let rest: u64 = samples % d;
    proof {
        vstd::arithmetic::div_mod::lemma_fundamental_div_mod(samples as int, d as int);
        assert(samples == d * q + rest);
        assert(q <= samples) by (nonlinear_arith)
            requires
                samples == d * q + rest,
                d > 0,
                rest >= 0,
        ;
        assert(rest > 0 ==> q < u64::MAX) by (nonlinear_arith)
            requires
                samples == d * q + rest,
                d > 0,
                samples <= u64::MAX,
                q <= samples,
        ;
        assert((q + 1) * d == d * q + d) by (nonlinear_arith);
        assert(q * d == d * q) by (nonlinear_arith);
        assert((q - 1) * d == d * q - d) by (nonlinear_arith);
    }
    if rest == 0 {
        q
    } else {
        q + 1
    }
}

/// The arguments that make ffmpeg write one picture as a file.
pub open spec fn picture_args(width: u32, height: u32, output: Seq<char>) -> Seq<Seq<char>> {
    seq![
        "-f"@,
        "rawvideo"@,
        "-pix_fmt"@,
        "rgba"@,
        "-s"@,
        dec(width as nat) + "x"@ + dec(height as nat),
        "-i"@,
        "-"@,
        "-frames:v"@,
        "1"@,
        output,
    ]
}

pub fn png_args(width: u32, height: u32, output: &str) -> (r: Vec<String>)
    ensures
        strings(r@) == picture_args(width, height, output@),
{
    let mut size = decimal(width as u128);
    size.append("x");
    size.append(decimal(height as u128).as_str());
    let mut out: Vec<String> = Vec::new();
    push_pair(&mut out, "-f", "rawvideo");
    push_pair(&mut out, "-pix_fmt", "rgba");
    push_pair(&mut out, "-s", size.as_str());
    push_pair(&mut out, "-i", "-");
    push_pair(&mut out, "-frames:v", "1");
    push_text(&mut out, output);
    assert(strings(out@) =~= picture_args(width, height, output@));
    out
}

} // verus!
