//! What follows from detected shot changes: markers on them, and clips split at them.

use crate::args::{
    argument, number_argument, opt_bool, opt_number, opt_str, opt_time, switch_argument,
    text_argument, time_argument,
};
use crate::error::{Error, ErrorView};
use crate::finding::{profile_named, tidy, unknown_profile, LoudnessProfile};
use crate::float_text::Float;
use crate::json::{Json, JsonView};
use crate::project::{opt_text, Marker, Probe};
use crate::rational::Rat;
use crate::text::{dec, decimal, has_prefix, push_dec, push_text, same, starts_with, strings};
use crate::time::{Fps, Time};
use vstd::prelude::*;

verus! {

// ---------------------------------------------------------------------------
// Arguments
// ---------------------------------------------------------------------------

/// How samples are asked to be taken: how often, at what scale, and whether from stand-ins.
#[derive(Clone, Copy, Debug, PartialEq, Eq, Structural)]
pub struct Sampling {
    pub every: Time,
    pub scale: Rat,
    pub proxy: bool,
}

/// The text of a number argument.
pub open spec fn number_text_of(args: JsonView, name: Seq<char>) -> Seq<char> {
    match argument(args, name) {
        Some(JsonView::Number(text)) => text,
        _ => ""@,
    }
}

pub open spec fn bad_scale(text: Seq<char>) -> ErrorView {
    ErrorView::BadArgs("scale must be greater than 0 and at most 1, got "@ + text)
}

/// The scale at which frames are looked at.
pub open spec fn scale_argument(args: JsonView) -> Result<Rat, ErrorView> {
    match number_argument(args, "scale"@) {
        Err(error) => Err(error),
        Ok(None) => Ok(Rat { num: 1, den: 2 }),
        Ok(Some(Float::Finite(scale))) => if 0 < scale.num <= scale.den {
            Ok(scale)
        } else {
            Err(bad_scale(number_text_of(args, "scale"@)))
        },
        Ok(Some(_)) => Err(bad_scale(number_text_of(args, "scale"@))),
    }
}

pub open spec fn sampling_asked(args: JsonView, fps: Fps) -> Result<Sampling, ErrorView> {
    match time_argument(args, "sample-every"@, fps) {
        Err(error) => Err(error),
        Ok(every) => match scale_argument(args) {
            Err(error) => Err(error),
            Ok(scale) => match switch_argument(args, "proxy"@) {
                Err(error) => Err(error),
                Ok(proxy) => Ok(
                    Sampling {
                        every: match every {
                            Some(every) => every,
                            None => crate::analyze::seconds(1),
                        },
                        scale,
                        proxy: match proxy {
                            Some(proxy) => proxy,
                            None => true,
                        },
                    },
                ),
            },
        },
    }
}

fn text_of_number(args: &Json, name: &str) -> (r: String)
    ensures
        r@ == number_text_of(args@, name@),
{
    match crate::args::get(args, name) {
        Some(Json::Number(text)) => text.as_str().to_owned(),
        _ => "".to_owned(),
    }
}

fn read_scale(args: &Json) -> (r: Result<Rat, Error>)
    ensures
        (match r {
            Ok(scale) => scale_argument(args@) == Ok::<Rat, ErrorView>(scale),
            Err(error) => scale_argument(args@) == Err::<Rat, ErrorView>(error@),
        }),
{
    match opt_number(args, "scale") {
        Err(error) => Err(error),
        Ok(None) => Ok(Rat { num: 1, den: 2 }),
        Ok(Some(value)) => {
            if let Float::Finite(scale) = value {
                if scale.num > 0 && scale.num <= scale.den {
                    return Ok(scale);
                }
            }
            let mut detail = "scale must be greater than 0 and at most 1, got ".to_owned();
            detail.append(text_of_number(args, "scale").as_str());
            Err(Error::BadArgs(detail))
        },
    }
}

/// Reads how samples are to be taken.
pub fn sampling(args: &Json, fps: Fps) -> (r: Result<Sampling, Error>)
    requires
        fps.wf(),
    ensures
        (match r {
            Ok(made) => sampling_asked(args@, fps) == Ok::<Sampling, ErrorView>(made),
            Err(error) => sampling_asked(args@, fps) == Err::<Sampling, ErrorView>(error@),
        }),
{
    let every = match opt_time(args, "sample-every", fps) {
        Err(error) => return Err(error),
        Ok(Some(every)) => every,
        Ok(None) => Time::from_secs(1),
    };
    let scale = match read_scale(args) {
        Err(error) => return Err(error),
        Ok(scale) => scale,
    };
    match opt_bool(args, "proxy") {
        Err(error) => Err(error),
        Ok(Some(proxy)) => Ok(Sampling { every, scale, proxy }),
        Ok(None) => Ok(Sampling { every, scale, proxy: true }),
    }
}

pub open spec fn bad_threshold(text: Seq<char>) -> ErrorView {
    ErrorView::BadArgs(
        "scene threshold must be between 0 and 3 (mean absolute pixel difference), got "@ + text,
    )
}

/// The difference that makes a shot change: above 0, at most 3.
pub open spec fn threshold_argument(args: JsonView) -> Result<Rat, ErrorView> {
    match number_argument(args, "threshold"@) {
        Err(error) => Err(error),
        Ok(None) => Ok(Rat { num: 3, den: 10 }),
        Ok(Some(Float::Finite(value))) => if value.num > 0 && value.num <= 3 * value.den {
            Ok(value)
        } else {
            Err(bad_threshold(number_text_of(args, "threshold"@)))
        },
        Ok(Some(_)) => Err(bad_threshold(number_text_of(args, "threshold"@))),
    }
}

/// Reads the threshold for shot changes.
pub fn scene_threshold(args: &Json) -> (r: Result<Rat, Error>)
    ensures
        (match r {
            Ok(value) => threshold_argument(args@) == Ok::<Rat, ErrorView>(value),
            Err(error) => threshold_argument(args@) == Err::<Rat, ErrorView>(error@),
        }),
{
    match opt_number(args, "threshold") {
        Err(error) => Err(error),
        Ok(None) => Ok(Rat { num: 3, den: 10 }),
        Ok(Some(value)) => {
            if let Float::Finite(value) = value {
                if value.num > 0 && value.num as i128 <= 3 * (value.den as i128) {
                    return Ok(value);
                }
            }
            let mut detail =
                "scene threshold must be between 0 and 3 (mean absolute pixel difference), got ".to_owned();
            detail.append(text_of_number(args, "threshold").as_str());
            Err(Error::BadArgs(detail))
        },
    }
}

pub open spec fn profile_argument(args: JsonView) -> Result<LoudnessProfile, ErrorView> {
    match text_argument(args, "profile"@) {
        None => Ok(LoudnessProfile::YouTube),
        Some(text) => match profile_named(tidy(text)) {
            Some(profile) => Ok(profile),
            None => Err(unknown_profile(tidy(text))),
        },
    }
}

/// Reads which loudness a mix is held to.
pub fn profile(args: &Json) -> (r: Result<LoudnessProfile, Error>)
    ensures
        (match r {
            Ok(profile) => profile_argument(args@) == Ok::<LoudnessProfile, ErrorView>(profile),
            Err(error) => profile_argument(args@) == Err::<LoudnessProfile, ErrorView>(error@),
        }),
{
    match opt_str(args, "profile") {
        Some(text) => LoudnessProfile::parse(text.as_str()),
        None => Ok(LoudnessProfile::YouTube),
    }
}

// ---------------------------------------------------------------------------
// Probing again
// ---------------------------------------------------------------------------

pub open spec fn says(what: Seq<char>, stored: Seq<char>, actual: Seq<char>) -> Seq<char> {
    what + ": document says "@ + stored + ", the file is "@ + actual
}

pub open spec fn size_words(size: [u32; 2]) -> Seq<char> {
    dec(size@[0] as nat) + "x"@ + dec(size@[1] as nat)
}

pub open spec fn sound_words(rate: u32, channels: u16) -> Seq<char> {
    dec(rate as nat) + " Hz / "@ + dec(channels as nat) + " ch"@
}

pub open spec fn when(yes: bool, text: Seq<char>) -> Seq<Seq<char>> {
    if yes {
        seq![text]
    } else {
        seq![]
    }
}

pub open spec fn video_differences(stored: Probe, actual: Probe) -> Seq<Seq<char>> {
    match (stored.video, actual.video) {
        (Some(a), Some(b)) => when(
            a.size@[0] != b.size@[0] || a.size@[1] != b.size@[1],
            says("video size"@, size_words(a.size), size_words(b.size)),
        ) + when(a.fps != b.fps, says("video rate"@, a.fps.text(), b.fps.text())) + when(
            a.codec@ != b.codec@,
            says("video codec"@, a.codec@, b.codec@),
        ),
        (Some(a), None) => seq![
            "video: the document expects a video stream, the file has none"@,
        ],
        (None, Some(b)) => seq![
            "video: the file has a video stream the document does not know about"@,
        ],
        (None, None) => seq![],
    }
}

pub open spec fn audio_differences(stored: Probe, actual: Probe) -> Seq<Seq<char>> {
    match (stored.audio, actual.audio) {
        (Some(a), Some(b)) => when(
            a.rate != b.rate || a.channels != b.channels,
            says("audio"@, sound_words(a.rate, a.channels), sound_words(b.rate, b.channels)),
        ),
        (Some(a), None) => seq![
            "audio: the document expects an audio stream, the file has none"@,
        ],
        (None, Some(b)) => seq![
            "audio: the file has an audio stream the document does not know about"@,
        ],
        (None, None) => seq![],
    }
}

/// Where what is known of a file and what it is differ.
pub open spec fn differences(stored: Probe, actual: Probe) -> Seq<Seq<char>> {
    when(
        stored.duration != actual.duration,
        says("duration"@, stored.duration.text(), actual.duration.text()),
    ) + video_differences(stored, actual) + audio_differences(stored, actual)
}

fn saying(what: &str, stored: &str, actual: &str) -> (r: String)
    ensures
        r@ == says(what@, stored@, actual@),
{
    let mut out = what.to_owned();
    out.append(": document says ");
    out.append(stored);
    out.append(", the file is ");
    out.append(actual);
    out
}

fn size_named(size: [u32; 2]) -> (r: String)
    ensures
        r@ == size_words(size),
{
    let mut out = decimal(size[0] as u128);
    out.append("x");
    push_dec(&mut out, size[1] as u128);
    out
}

fn sound_named(rate: u32, channels: u16) -> (r: String)
    ensures
        r@ == sound_words(rate, channels),
{
    let mut out = decimal(rate as u128);
    out.append(" Hz / ");
    push_dec(&mut out, channels as u128);
    out.append(" ch");
    out
}

fn push_when(out: &mut Vec<String>, yes: bool, text: String)
    ensures
        strings(final(out)@) == strings(old(out)@) + when(yes, text@),
{
    if yes {
        push_text(out, text.as_str());
    }
    assert(strings(out@) =~= strings(old(out)@) + when(yes, text@));
}

fn push_video(out: &mut Vec<String>, stored: &Probe, actual: &Probe)
    ensures
        strings(final(out)@) == strings(old(out)@) + video_differences(*stored, *actual),
{
    let ghost before = strings(out@);
    match (&stored.video, &actual.video) {
        (Some(a), Some(b)) => {
            push_when(
                out,
                a.size[0] != b.size[0] || a.size[1] != b.size[1],
                saying("video size", size_named(a.size).as_str(), size_named(b.size).as_str()),
            );
            push_when(
                out,
                a.fps != b.fps,
                saying("video rate", a.fps.to_text().as_str(), b.fps.to_text().as_str()),
            );
            push_when(
                out,
                !same(a.codec.as_str(), b.codec.as_str()),
                saying("video codec", a.codec.as_str(), b.codec.as_str()),
            );
        },
        (Some(_), None) => push_text(
            out,
            "video: the document expects a video stream, the file has none",
        ),
        (None, Some(_)) => push_text(
            out,
            "video: the file has a video stream the document does not know about",
        ),
        (None, None) => {},
    }
    assert(strings(out@) =~= before + video_differences(*stored, *actual));
}

fn push_audio(out: &mut Vec<String>, stored: &Probe, actual: &Probe)
    ensures
        strings(final(out)@) == strings(old(out)@) + audio_differences(*stored, *actual),
{
    let ghost before = strings(out@);
    match (&stored.audio, &actual.audio) {
        (Some(a), Some(b)) => {
            push_when(
                out,
                a.rate != b.rate || a.channels != b.channels,
                saying(
                    "audio",
                    sound_named(a.rate, a.channels).as_str(),
                    sound_named(b.rate, b.channels).as_str(),
                ),
            );
        },
        (Some(_), None) => push_text(
            out,
            "audio: the document expects an audio stream, the file has none",
        ),
        (None, Some(_)) => push_text(
            out,
            "audio: the file has an audio stream the document does not know about",
        ),
        (None, None) => {},
    }
    assert(strings(out@) =~= before + audio_differences(*stored, *actual));
}

/// Where what the document believes of a file and what the file is differ, one line each.
pub fn probe_differences(stored: &Probe, actual: &Probe) -> (r: Vec<String>)
    ensures
        strings(r@) == differences(*stored, *actual),
{
    let mut out: Vec<String> = Vec::new();
    assert(strings(out@) =~= seq![]);
    push_when(
        &mut out,
        stored.duration != actual.duration,
        saying("duration", stored.duration.to_text().as_str(), actual.duration.to_text().as_str()),
    );
    let ghost first = when(
        stored.duration != actual.duration,
        says("duration"@, stored.duration.text(), actual.duration.text()),
    );
    assert(strings(out@) =~= first);
    push_video(&mut out, stored, actual);
    push_audio(&mut out, stored, actual);
    out
}

// ---------------------------------------------------------------------------
// Markers
// ---------------------------------------------------------------------------

pub struct MarkerText {
    pub id: Seq<char>,
    pub at: Time,
    pub name: Seq<char>,
    pub note: Option<Seq<char>>,
}

impl View for Marker {
    type V = MarkerText;

    open spec fn view(&self) -> MarkerText {
        MarkerText {
            id: self.id@,
            at: self.at,
            name: self.name@,
            note: opt_text(self.note),
        }
    }
}

/// The marker of the shot change at a position.
pub open spec fn scene_marker(
    id: Seq<char>,
    at: Time,
    index: int,
    prefix: Seq<char>,
    threshold: Seq<char>,
    fps: Fps,
) -> MarkerText {
    MarkerText {
        id,
        at,
        name: prefix + " "@ + dec((index + 1) as nat),
        note: Some(
            "shot change detected at "@ + at.timecode_text(fps) + " (threshold "@ + threshold
                + ")"@,
        ),
    }
}

/// The markers that are kept: those whose name does not start with a prefix.
pub open spec fn kept_markers(markers: Seq<Marker>, prefix: Seq<char>) -> Seq<Marker>
    decreases markers.len(),
{
    if markers.len() == 0 {
        seq![]
    } else if starts_with(markers.last().name@, prefix) {
        kept_markers(markers.drop_last(), prefix)
    } else {
        kept_markers(markers.drop_last(), prefix).push(markers.last())
    }
}

pub open spec fn dropped_ids(markers: Seq<Marker>, prefix: Seq<char>) -> Seq<Seq<char>>
    decreases markers.len(),
{
    if markers.len() == 0 {
        seq![]
    } else if starts_with(markers.last().name@, prefix) {
        dropped_ids(markers.drop_last(), prefix).push(markers.last().id@)
    } else {
        dropped_ids(markers.drop_last(), prefix)
    }
}

/// Where a marker goes: behind every marker that is not later.
pub open spec fn marker_slot(markers: Seq<MarkerText>, at: Time) -> int
    decreases markers.len(),
{
    if markers.len() == 0 || markers.last().at.le(at) {
        markers.len() as int
    } else {
        marker_slot(markers.drop_last(), at)
    }
}

pub open spec fn with_markers(
    markers: Seq<MarkerText>,
    cuts: Seq<Time>,
    ids: Seq<Seq<char>>,
    prefix: Seq<char>,
    threshold: Seq<char>,
    fps: Fps,
) -> Seq<MarkerText>
    decreases cuts.len(),
{
    if cuts.len() == 0 {
        markers
    } else {
        let n = cuts.len() - 1;
        let before = with_markers(markers, cuts.drop_last(), ids, prefix, threshold, fps);
        before.insert(
            marker_slot(before, cuts[n]),
            scene_marker(ids[n], cuts[n], n, prefix, threshold, fps),
        )
    }
}

pub open spec fn marker_views(markers: Seq<Marker>) -> Seq<MarkerText> {
    crate::views::views(markers)
}

fn drop_markers(markers: &mut Vec<Marker>, prefix: &str) -> (r: Vec<String>)
    ensures
        final(markers)@ == kept_markers(old(markers)@, prefix@),
        strings(r@) == dropped_ids(old(markers)@, prefix@),
{
    let ghost all = markers@;
    let mut out: Vec<String> = Vec::new();
    let mut kept: usize = 0;
    let ghost mut seen: int = 0;
    assert(all.take(0) =~= seq![]);
    assert(markers@ =~= kept_markers(all.take(0), prefix@) + all.skip(0));
    assert(strings(out@) =~= seq![]);
    while kept < markers.len()
        invariant
            0 <= seen <= all.len(),
            kept == kept_markers(all.take(seen), prefix@).len(),
            markers@ == kept_markers(all.take(seen), prefix@) + all.skip(seen),
            strings(out@) == dropped_ids(all.take(seen), prefix@),
        decreases markers@.len() - kept,
    {
        proof {
            assert(markers@.len() == kept + (all.len() - seen));
            assert(markers@[kept as int] == all.skip(seen)[0]);
            assert(all.take(seen + 1).drop_last() =~= all.take(seen));
            assert(all.take(seen + 1).last() == all[seen]);
        }
        let ghost front = kept_markers(all.take(seen), prefix@);
        if has_prefix(markers[kept].name.as_str(), prefix) {
            push_text(&mut out, markers[kept].id.as_str());
            markers.remove(kept);
            assert(markers@ =~= front + all.skip(seen + 1));
        } else {
            kept = kept + 1;
            assert(markers@ =~= front.push(all[seen]) + all.skip(seen + 1));
        }
        proof {
            seen = seen + 1;
        }
    }
    proof {
        assert(all.skip(seen).len() == 0);
        assert(all.take(seen) =~= all);
        assert(markers@ =~= kept_markers(all, prefix@));
    }
    out
}

fn insert_marker(markers: &mut Vec<Marker>, marker: Marker)
    ensures
        marker_views(final(markers)@) == marker_views(old(markers)@).insert(
            marker_slot(marker_views(old(markers)@), marker.at),
            marker@,
        ),
{
    let ghost all = marker_views(markers@);
    let mut slot: usize = markers.len();
    assert(all.take(slot as int) =~= all);
    while slot > 0 && !markers[slot - 1].at.at_most(&marker.at)
        invariant
            slot <= markers@.len(),
            all == marker_views(markers@),
            marker_slot(all.take(slot as int), marker.at) == marker_slot(all, marker.at),
        decreases slot,
    {
        assert(all.take(slot as int).drop_last() =~= all.take(slot - 1));
        assert(all.take(slot as int).last() == markers@[slot - 1]@);
        slot = slot - 1;
    }
    proof {
        if slot > 0 {
            assert(all.take(slot as int).last() == markers@[slot - 1]@);
        }
    }
    let ghost seen = marker@;
    markers.insert(slot, marker);
    assert(marker_views(markers@) =~= all.insert(slot as int, seen));
}

/// Puts a marker on every shot change, in the order of time. With `replace`, those that an
/// earlier run left go first. Gives the ids of the markers that were taken away.
pub fn markers_from_scenes(
    markers: &mut Vec<Marker>,
    cuts: &Vec<Time>,
    ids: &Vec<String>,
    prefix: &str,
    replace: bool,
    threshold: &str,
    fps: Fps,
) -> (r: Vec<String>)
    requires
        fps.wf(),
        ids@.len() == cuts@.len(),
        forall|i: int| 0 <= i < cuts@.len() ==> (#[trigger] cuts@[i]).wf(),
    ensures
        strings(r@) == (if replace {
            dropped_ids(old(markers)@, prefix@)
        } else {
            seq![]
        }),
        marker_views(final(markers)@) == with_markers(
            marker_views(
                if replace {
                    kept_markers(old(markers)@, prefix@)
                } else {
                    old(markers)@
                },
            ),
            cuts@,
            strings(ids@),
            prefix@,
            threshold@,
            fps,
        ),
{
    let removed = if replace {
        drop_markers(markers, prefix)
    } else {
        let none: Vec<String> = Vec::new();
        assert(strings(none@) =~= seq![]);
        none
    };
    let ghost start = marker_views(markers@);
    let mut i: usize = 0;
    assert(cuts@.take(0) =~= seq![]);
    while i < cuts.len()
        invariant
            i <= cuts@.len(),
            fps.wf(),
            ids@.len() == cuts@.len(),
            forall|k: int| 0 <= k < cuts@.len() ==> (#[trigger] cuts@[k]).wf(),
            marker_views(markers@) == with_markers(
                start,
                cuts@.take(i as int),
                strings(ids@),
                prefix@,
                threshold@,
                fps,
            ),
        decreases cuts@.len() - i,
    {
        let at = cuts[i];
        assert(cuts@[i as int].wf());
        assert(cuts@.take(i + 1).drop_last() =~= cuts@.take(i as int));
        let mut name = prefix.to_owned();
        name.append(" ");
        push_dec(&mut name, i as u128 + 1);
        let mut note = "shot change detected at ".to_owned();
        note.append(at.timecode(fps).as_str());
        note.append(" (threshold ");
        note.append(threshold);
        note.append(")");
        let marker = Marker { id: ids[i].as_str().to_owned(), at, name, note: Some(note) };
        assert(strings(ids@)[i as int] == ids@[i as int]@);
        assert(marker@ == scene_marker(
            strings(ids@)[i as int],
            at,
            i as int,
            prefix@,
            threshold@,
            fps,
        ));
        insert_marker(markers, marker);
        i = i + 1;
    }
    assert(cuts@.take(i as int) =~= cuts@);
    removed
}

pub open spec fn in_time_order(markers: Seq<MarkerText>) -> bool {
    forall|i: int, j: int|
        0 <= i <= j < markers.len() ==> (#[trigger] markers[i]).at.le((#[trigger] markers[j]).at)
}

pub open spec fn markers_wf(markers: Seq<MarkerText>) -> bool {
    forall|i: int| 0 <= i < markers.len() ==> (#[trigger] markers[i]).at.wf()
}

proof fn lemma_slot(markers: Seq<MarkerText>, at: Time)
    requires
        markers_wf(markers),
        in_time_order(markers),
        at.wf(),
    ensures
        0 <= marker_slot(markers, at) <= markers.len(),
        forall|i: int| 0 <= i < marker_slot(markers, at) ==> (#[trigger] markers[i]).at.le(at),
        forall|i: int|
            marker_slot(markers, at) <= i < markers.len() ==> at.lt((#[trigger] markers[i]).at),
    decreases markers.len(),
{
    if markers.len() > 0 {
        let n = markers.len() - 1;
        if markers.last().at.le(at) {
            assert forall|i: int| 0 <= i < markers.len() implies (#[trigger] markers[i]).at.le(
                at,
            ) by {
                assert(markers[i].at.le(markers[n].at));
                crate::span::lemma_lt_trans(markers[i].at, markers[n].at, at);
            }
        } else {
            let rest = markers.drop_last();
            assert forall|i: int| 0 <= i < rest.len() implies (#[trigger] rest[i]).at.wf() by {
                assert(markers[i].at.wf());
            }
            assert forall|i: int, j: int| 0 <= i <= j < rest.len() implies (
            #[trigger] rest[i]).at.le((#[trigger] rest[j]).at) by {
                assert(markers[i].at.le(markers[j].at));
            }
            lemma_slot(rest, at);
            assert forall|i: int| 0 <= i < marker_slot(markers, at) implies (
            #[trigger] markers[i]).at.le(at) by {
                assert(rest[i].at.le(at));
            }
            assert forall|i: int| marker_slot(markers, at) <= i < markers.len() implies at.lt(
                (#[trigger] markers[i]).at,
            ) by {
                if i < n {
                    assert(at.lt(rest[i].at));
                }
            }
        }
    }
}

/// Markers that stand in the order of time still do when a marker is put on every shot change.
pub proof fn law_markers_stay_in_order(
    markers: Seq<MarkerText>,
    cuts: Seq<Time>,
    ids: Seq<Seq<char>>,
    prefix: Seq<char>,
    threshold: Seq<char>,
    fps: Fps,
)
    requires
        markers_wf(markers),
        in_time_order(markers),
        forall|i: int| 0 <= i < cuts.len() ==> (#[trigger] cuts[i]).wf(),
    ensures
        in_time_order(with_markers(markers, cuts, ids, prefix, threshold, fps)),
        markers_wf(with_markers(markers, cuts, ids, prefix, threshold, fps)),
        with_markers(markers, cuts, ids, prefix, threshold, fps).len() == markers.len()
            + cuts.len(),
    decreases cuts.len(),
{
    if cuts.len() > 0 {
        let n = cuts.len() - 1;
        let rest = cuts.drop_last();
        assert forall|i: int| 0 <= i < rest.len() implies (#[trigger] rest[i]).wf() by {
            assert(cuts[i].wf());
        }
        law_markers_stay_in_order(markers, rest, ids, prefix, threshold, fps);
        let before = with_markers(markers, rest, ids, prefix, threshold, fps);
        let slot = marker_slot(before, cuts[n]);
        assert(cuts[n].wf());
        lemma_slot(before, cuts[n]);
        let marker = scene_marker(ids[n], cuts[n], n, prefix, threshold, fps);
        let all = before.insert(slot, marker);
        assert forall|i: int| 0 <= i < all.len() implies (#[trigger] all[i]).at.wf() by {
            if i < slot {
                assert(before[i].at.wf());
            } else if i > slot {
                assert(before[i - 1].at.wf());
            }
        }
        assert forall|i: int, j: int| 0 <= i <= j < all.len() implies (#[trigger] all[i]).at.le(
            (#[trigger] all[j]).at,
        ) by {
            if i < slot {
                assert(all[i] == before[i]);
                if j < slot {
                    assert(before[i].at.le(before[j].at));
                } else if j == slot {
                    assert(before[i].at.le(cuts[n]));
                } else {
                    assert(before[i].at.le(before[j - 1].at));
                }
            } else if i == slot {
                if j > slot {
                    assert(cuts[n].lt(before[j - 1].at));
                }
            } else {
                assert(before[i - 1].at.le(before[j - 1].at));
            }
        }
    }
}

proof fn lemma_scene_name(
    id: Seq<char>,
    at: Time,
    index: int,
    prefix: Seq<char>,
    threshold: Seq<char>,
    fps: Fps,
)
    ensures
        starts_with(scene_marker(id, at, index, prefix, threshold, fps).name, prefix),
{
    let name = scene_marker(id, at, index, prefix, threshold, fps).name;
    assert(name.take(prefix.len() as int) =~= prefix);
}

/// The markers whose name does not start with a prefix.
pub open spec fn others(markers: Seq<MarkerText>, prefix: Seq<char>) -> Seq<MarkerText>
    decreases markers.len(),
{
    if markers.len() == 0 {
        seq![]
    } else if starts_with(markers.last().name, prefix) {
        others(markers.drop_last(), prefix)
    } else {
        others(markers.drop_last(), prefix).push(markers.last())
    }
}

proof fn lemma_kept(markers: Seq<Marker>, prefix: Seq<char>)
    ensures
        marker_views(kept_markers(markers, prefix)) == others(marker_views(markers), prefix),
    decreases markers.len(),
{
    if markers.len() > 0 {
        lemma_kept(markers.drop_last(), prefix);
        assert(marker_views(markers).drop_last() =~= marker_views(markers.drop_last()));
        assert(marker_views(kept_markers(markers, prefix)) =~= others(
            marker_views(markers),
            prefix,
        ));
    } else {
        assert(marker_views(kept_markers(markers, prefix)) =~= seq![]);
    }
}

proof fn lemma_others_insert(markers: Seq<MarkerText>, slot: int, marker: MarkerText, prefix: Seq<char>)
    requires
        0 <= slot <= markers.len(),
        starts_with(marker.name, prefix),
    ensures
        others(markers.insert(slot, marker), prefix) == others(markers, prefix),
    decreases markers.len(),
{
    let all = markers.insert(slot, marker);
    if slot == markers.len() {
        assert(all.drop_last() =~= markers);
    } else {
        lemma_others_insert(markers.drop_last(), slot, marker, prefix);
        assert(all.drop_last() =~= markers.drop_last().insert(slot, marker));
        assert(all.last() == markers.last());
    }
}

proof fn lemma_slot_bound(markers: Seq<MarkerText>, at: Time)
    ensures
        0 <= marker_slot(markers, at) <= markers.len(),
    decreases markers.len(),
{
    if markers.len() > 0 && !markers.last().at.le(at) {
        lemma_slot_bound(markers.drop_last(), at);
    }
}

/// What a run adds, the next run takes away: of the markers that are there after a run, those
/// without the prefix are the ones that were there before it.
pub proof fn law_running_again_does_not_pile_up(
    markers: Seq<Marker>,
    made: Seq<Marker>,
    cuts: Seq<Time>,
    ids: Seq<Seq<char>>,
    prefix: Seq<char>,
    threshold: Seq<char>,
    fps: Fps,
)
    requires
        marker_views(made) == with_markers(
            marker_views(kept_markers(markers, prefix)),
            cuts,
            ids,
            prefix,
            threshold,
            fps,
        ),
    ensures
        marker_views(kept_markers(made, prefix)) == marker_views(kept_markers(markers, prefix)),
{
    lemma_kept(made, prefix);
    lemma_kept(markers, prefix);
    lemma_added_go(
        marker_views(kept_markers(markers, prefix)),
        cuts,
        ids,
        prefix,
        threshold,
        fps,
    );
    lemma_others_twice(marker_views(markers), prefix);
}

proof fn lemma_others_twice(markers: Seq<MarkerText>, prefix: Seq<char>)
    ensures
        others(others(markers, prefix), prefix) == others(markers, prefix),
    decreases markers.len(),
{
    if markers.len() > 0 {
        lemma_others_twice(markers.drop_last(), prefix);
        if !starts_with(markers.last().name, prefix) {
            let all = others(markers, prefix);
            assert(all.drop_last() =~= others(markers.drop_last(), prefix));
        }
    }
}

proof fn lemma_added_go(
    markers: Seq<MarkerText>,
    cuts: Seq<Time>,
    ids: Seq<Seq<char>>,
    prefix: Seq<char>,
    threshold: Seq<char>,
    fps: Fps,
)
    ensures
        others(with_markers(markers, cuts, ids, prefix, threshold, fps), prefix) == others(
            markers,
            prefix,
        ),
    decreases cuts.len(),
{
    if cuts.len() > 0 {
        let n = cuts.len() - 1;
        lemma_added_go(markers, cuts.drop_last(), ids, prefix, threshold, fps);
        let before = with_markers(markers, cuts.drop_last(), ids, prefix, threshold, fps);
        lemma_slot_bound(before, cuts[n]);
        lemma_scene_name(ids[n], cuts[n], n, prefix, threshold, fps);
        lemma_others_insert(
            before,
            marker_slot(before, cuts[n]),
            scene_marker(ids[n], cuts[n], n, prefix, threshold, fps),
            prefix,
        );
    }
}

} // verus!
