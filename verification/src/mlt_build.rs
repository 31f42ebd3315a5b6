//! A sequence as an MLT document: what goes on which playlist.
//!
//! An overlap of two clips is written as a dissolve between the two playlists of a track:
//! the outgoing clip is extended over the transition, and the head of the incoming clip
//! moves to the second playlist.

use crate::error::{Error, ErrorView};
use crate::mlt::{
    asset_fits, clip_speed, in_frame_of, in_point, intern, interned, numbered, producer_for,
    speed_of, EntryOut, EntryOutView, Filter, FilterView, Ids, IdsView, Item, ItemView, Producer,
    ProducerView, TransitionOut, TransitionView,
};
use crate::number::{number, number_text};
use crate::project::{Clip, Project, Transition, TransitionKind};
use crate::rational::{round_half_even, rounded_even};
use crate::text::{dec_int, integer};
use crate::time::Fps;
use crate::timeline::{
    as_list, entries_of, entry_frames, feature_warnings, frames_in, larger, lost_features,
    push_warning, resolve_source, resource_of, smaller, source_error, source_warning, Entry, Placed,
    Warning, WarningView, FRAME_LIMIT,
};
use crate::views::{extend, push_view, views};
use crate::xml::{attr, attrs1, attrs2, XmlAttr};
use vstd::prelude::*;

verus! {

// ---------------------------------------------------------------------------
// Filters
// ---------------------------------------------------------------------------

/// Which part of a split clip a filter set belongs to. A fade-in applies to the head of a
/// clip and a fade-out to its tail.
#[derive(Clone, Copy, Debug, PartialEq, Eq, Structural)]
pub enum Part {
    Whole,
    Head,
    Tail,
}

/// A pan of -1 to 1 on the scale from hard left, 0, to hard right, 1; in millionths.
pub open spec fn pan_position(pan: int) -> int {
    round_half_even(larger(smaller(pan, 1_000_000), -1_000_000) + 1_000_000, 2)
}

pub open spec fn panner_filter(pan: int) -> FilterView {
    FilterView {
        service: "panner"@,
        props: seq![
            attr("start"@, number_text(pan_position(pan))),
            attr("end"@, number_text(pan_position(pan))),
        ],
        range: None,
    }
}

pub open spec fn level_filter(gain: int) -> FilterView {
    FilterView { service: "volume"@, props: seq![attr("level"@, number_text(gain))], range: None }
}

pub open spec fn opacity_filter(opacity: int) -> FilterView {
    FilterView {
        service: "brightness"@,
        props: seq![
            attr("alpha"@, number_text(larger(opacity, 0))),
            attr("opacity"@, "1"@),
        ],
        range: None,
    }
}

pub open spec fn fade_in_filter(audio: bool, from: int, fade: int) -> FilterView {
    let range = Some((from as i64, (from + fade - 1) as i64));
    if audio {
        FilterView {
            service: "volume"@,
            props: seq![attr("gain"@, "0"@), attr("end"@, "1"@)],
            range,
        }
    } else {
        FilterView {
            service: "brightness"@,
            props: seq![
                attr("alpha"@, "0=0;"@ + dec_int(fade - 1) + "=1"@),
                attr("opacity"@, "1"@),
            ],
            range,
        }
    }
}

pub open spec fn fade_out_filter(audio: bool, last: int, fade: int) -> FilterView {
    let range = Some(((last - fade + 1) as i64, last as i64));
    if audio {
        FilterView {
            service: "volume"@,
            props: seq![attr("gain"@, "1"@), attr("end"@, "0"@)],
            range,
        }
    } else {
        FilterView {
            service: "brightness"@,
            props: seq![
                attr("alpha"@, "0=1;"@ + dec_int(fade - 1) + "=0"@),
                attr("opacity"@, "1"@),
            ],
            range,
        }
    }
}

pub open spec fn one_if(condition: bool, filter: FilterView) -> Seq<FilterView> {
    if condition {
        seq![filter]
    } else {
        seq![]
    }
}

/// What a clip's levels ask for: gain and pan on an audio track, opacity on a video one.
pub open spec fn level_filters(clip: Clip, audio: bool) -> Seq<FilterView> {
    if audio {
        one_if(clip.gain is Some, level_filter(clip.gain->0 as int)) + one_if(
            clip.pan is Some,
            panner_filter(clip.pan->0 as int),
        )
    } else {
        one_if(
            clip.opacity is Some && clip.opacity->0 < 1_000_000,
            opacity_filter(clip.opacity->0 as int),
        )
    }
}

/// The filters of `frames` frames of a clip, starting at `from`: its levels, a fade-in on
/// the part that has its head and a fade-out on the part that has its tail.
pub open spec fn filters_of(
    clip: Clip,
    audio: bool,
    from: int,
    frames: int,
    fps: Fps,
    part: Part,
) -> Seq<FilterView> {
    let fade_in = smaller(clip.fade_in.round_frame(fps), frames);
    let fade_out = smaller(clip.fade_out.round_frame(fps), frames);
    level_filters(clip, audio) + one_if(
        fade_in > 0 && part != Part::Tail,
        fade_in_filter(audio, from, fade_in),
    ) + one_if(
        fade_out > 0 && part != Part::Head,
        fade_out_filter(audio, from + frames - 1, fade_out),
    )
}

/// Whether a filter's range, if it has one, lies within `frames` frames from `from`.
pub open spec fn range_inside(filter: FilterView, from: int, frames: int) -> bool {
    match filter.range {
        None => true,
        Some((first, last)) => from <= first <= last < from + frames,
    }
}

/// A fade never reaches outside the frames that it belongs to.
pub proof fn law_fades_stay_inside(
    clip: Clip,
    audio: bool,
    from: int,
    frames: int,
    fps: Fps,
    part: Part,
    i: int,
)
    requires
        0 <= from < 2 * FRAME_LIMIT,
        0 < frames < FRAME_LIMIT,
        0 <= i < filters_of(clip, audio, from, frames, fps, part).len(),
    ensures
        range_inside(filters_of(clip, audio, from, frames, fps, part)[i], from, frames),
{
}

pub(crate) fn panner(pan: i64) -> (r: Filter)
    ensures
        r@ == panner_filter(pan as int),
{
    let inside: i64 = if pan > 1_000_000 {
        1_000_000
    } else if pan < -1_000_000 {
        -1_000_000
    } else {
        pan
    };
    let position: i128 = rounded_even((inside + 1_000_000) as i128, 2);
    let text = number(position);
    Filter {
        service: "panner",
        props: attrs2("start", text.as_str(), "end", text.as_str()),
        range: None,
    }
}

pub(crate) fn level(gain: i64) -> (r: Filter)
    ensures
        r@ == level_filter(gain as int),
{
    Filter {
        service: "volume",
        props: attrs1("level", number(gain as i128).as_str()),
        range: None,
    }
}

fn ramp(audio: bool, rising: bool, fade: i64) -> (r: (&'static str, Vec<XmlAttr>))
    requires
        0 < fade,
    ensures
        rising ==> r.0@ == fade_in_filter(audio, 0, fade as int).service && views(r.1@)
            == fade_in_filter(audio, 0, fade as int).props,
        !rising ==> r.0@ == fade_out_filter(audio, 0, fade as int).service && views(r.1@)
            == fade_out_filter(audio, 0, fade as int).props,
{
    if audio {
        if rising {
            ("volume", attrs2("gain", "0", "end", "1"))
        } else {
            ("volume", attrs2("gain", "1", "end", "0"))
        }
    } else if rising {
        let mut alpha = "0=0;".to_owned();
        alpha.append(integer(fade - 1).as_str());
        alpha.append("=1");
        ("brightness", attrs2("alpha", alpha.as_str(), "opacity", "1"))
    } else {
        let mut alpha = "0=1;".to_owned();
        alpha.append(integer(fade - 1).as_str());
        alpha.append("=0");
        ("brightness", attrs2("alpha", alpha.as_str(), "opacity", "1"))
    }
}

/// Whether a clip's fades are frame counts.
pub open spec fn fades_fit(clip: Clip, fps: Fps) -> bool {
    &&& -FRAME_LIMIT < clip.fade_in.round_frame(fps) < FRAME_LIMIT
    &&& -FRAME_LIMIT < clip.fade_out.round_frame(fps) < FRAME_LIMIT
}

pub fn clip_filters(
    clip: &Clip,
    audio: bool,
    from: i64,
    frames: i64,
    fps: Fps,
    part: Part,
) -> (r: Vec<Filter>)
    requires
        clip.wf(),
        fps.wf(),
        fades_fit(*clip, fps),
        0 <= from < 2 * FRAME_LIMIT,
        0 < frames < FRAME_LIMIT,
    ensures
        views(r@) == filters_of(*clip, audio, from as int, frames as int, fps, part),
{
    let mut filters: Vec<Filter> = Vec::new();
    assert(views(filters@) =~= seq![]);
    if audio {
        if let Some(gain) = clip.gain {
            push_view(&mut filters, level(gain));
        }
        if let Some(pan) = clip.pan {
            push_view(&mut filters, panner(pan));
        }
    } else if let Some(opacity) = clip.opacity {
        if opacity < 1_000_000 {
            let shown: i64 = if opacity > 0 {
                opacity
            } else {
                0
            };
            push_view(
                &mut filters,
                Filter {
                    service: "brightness",
                    props: attrs2("alpha", number(shown as i128).as_str(), "opacity", "1"),
                    range: None,
                },
            );
        }
    }
    assert(views(filters@) =~= level_filters(*clip, audio));
    let rise: i64 = clip.fade_in.frame_round(fps);
    let fall: i64 = clip.fade_out.frame_round(fps);
    let fade_in: i64 = if rise <= frames {
        rise
    } else {
        frames
    };
    let fade_out: i64 = if fall <= frames {
        fall
    } else {
        frames
    };
    if fade_in > 0 && part != Part::Tail {
        let (service, props) = ramp(audio, true, fade_in);
        push_view(
            &mut filters,
            Filter { service, props, range: Some((from, from + fade_in - 1)) },
        );
    }
    if fade_out > 0 && part != Part::Head {
        let last: i64 = from + frames - 1;
        let (service, props) = ramp(audio, false, fade_out);
        push_view(
            &mut filters,
            Filter { service, props, range: Some((last - fade_out + 1, last)) },
        );
    }
    assert(views(filters@) =~= filters_of(
        *clip,
        audio,
        from as int,
        frames as int,
        fps,
        part,
    ));
    filters
}

// ---------------------------------------------------------------------------
// One track's items
// ---------------------------------------------------------------------------

/// A track while its entries are laid out.
pub struct Build {
    pub producers: Vec<Producer>,
    pub ids: Ids,
    /// The first playlist.
    pub main: Vec<Item>,
    /// The second playlist, which holds the heads of clips that come in over another.
    pub side: Vec<Item>,
    /// How many frames the second playlist holds.
    pub side_cursor: i64,
    pub transitions: Vec<TransitionOut>,
    pub warnings: Vec<Warning>,
}

pub struct BuildView {
    pub producers: Seq<ProducerView>,
    pub ids: IdsView,
    pub main: Seq<ItemView>,
    pub side: Seq<ItemView>,
    pub side_cursor: int,
    pub transitions: Seq<TransitionView>,
    pub warnings: Seq<WarningView>,
}

impl View for Build {
    type V = BuildView;

    open spec fn view(&self) -> BuildView {
        BuildView {
            producers: views(self.producers@),
            ids: self.ids@,
            main: views(self.main@),
            side: views(self.side@),
            side_cursor: self.side_cursor as int,
            transitions: views(self.transitions@),
            warnings: views(self.warnings@),
        }
    }
}

pub open spec fn kind_text(kind: TransitionKind) -> Seq<char> {
    match kind {
        TransitionKind::Cut => "cut"@,
        TransitionKind::Dissolve => "dissolve"@,
        TransitionKind::Dip => "dip"@,
        TransitionKind::Wipe => "wipe"@,
        TransitionKind::Slide => "slide"@,
        TransitionKind::Push => "push"@,
    }
}

pub fn kind_name(kind: TransitionKind) -> (r: &'static str)
    ensures
        r@ == kind_text(kind),
{
    match kind {
        TransitionKind::Cut => "cut",
        TransitionKind::Dissolve => "dissolve",
        TransitionKind::Dip => "dip",
        TransitionKind::Wipe => "wipe",
        TransitionKind::Slide => "slide",
        TransitionKind::Push => "push",
    }
}

pub open spec fn nothing_before(clip: Clip) -> WarningView {
    WarningView {
        code: "transition-dropped"@,
        target: clip.spec_label(),
        detail: "a transition needs a clip to come from; there is none before this one, so the export has a cut here"@,
    }
}

pub open spec fn nothing_left(clip: Clip, kind: TransitionKind) -> WarningView {
    WarningView {
        code: "transition-dropped"@,
        target: clip.spec_label(),
        detail: "the outgoing clip has no source left past its out point, so the "@ + kind_text(
            kind,
        ) + " could not be built and the export has a cut here"@,
    }
}

pub open spec fn shortened(clip: Clip, kind: TransitionKind, wanted: int, head: int) -> WarningView {
    WarningView {
        code: "transition-shortened"@,
        target: clip.spec_label(),
        detail: "the "@ + kind_text(kind) + " was shortened from "@ + dec_int(wanted) + " to "@
            + dec_int(head) + " frames: that is all the source the outgoing clip has left"@,
    }
}

pub open spec fn approximated(clip: Clip, kind: TransitionKind) -> WarningView {
    WarningView {
        code: "transition-approximated"@,
        target: clip.spec_label(),
        detail: "MLT has no direct equivalent of a "@ + kind_text(kind)
            + "; it was exported as a dissolve of the same length"@,
    }
}

/// The frames a transition asks for: at least one.
pub open spec fn wanted_frames(transition: Transition, fps: Fps) -> int {
    larger(transition.duration.round_frame(fps), 1)
}

/// The frames of source a use of a producer has left past its out point.
pub open spec fn source_left(producers: Seq<ProducerView>, entry: EntryOutView) -> int {
    larger(producers[entry.producer].length - (entry.out_frame + 1), 0)
}

/// How many frames of the incoming clip can lie over the outgoing one.
pub open spec fn overlap(b: BuildView, placed: Placed, transition: Transition, fps: Fps) -> int {
    if b.main.len() > 0 && b.main.last() is Entry {
        smaller(
            smaller(wanted_frames(transition, fps), placed.frames as int),
            source_left(b.producers, b.main.last()->Entry_0),
        )
    } else {
        0
    }
}

/// What creating the overlap has to report.
pub open spec fn overlap_warnings(
    b: BuildView,
    placed: Placed,
    transition: Transition,
    fps: Fps,
) -> Seq<WarningView> {
    let clip = *placed.clip;
    let head = overlap(b, placed, transition, fps);
    let wanted = wanted_frames(transition, fps);
    if b.main.len() == 0 || !(b.main.last() is Entry) {
        seq![nothing_before(clip)]
    } else if head <= 0 {
        seq![nothing_left(clip, transition.kind)]
    } else {
        as_list(
            if head < wanted {
                Some(shortened(clip, transition.kind, wanted, head))
            } else {
                None
            },
        ) + as_list(
            if transition.kind != TransitionKind::Dissolve {
                Some(approximated(clip, transition.kind))
            } else {
                None
            },
        )
    }
}

/// The transition element over the overlap: its first and last frame, both included.
pub open spec fn overlap_transition(audio: bool, id: int, start: int, head: int) -> TransitionView {
    TransitionView {
        id: numbered("transition"@, id),
        service: if audio {
            "mix"@
        } else {
            "luma"@
        },
        a_track: 0,
        b_track: 1,
        props: seq![attr("start"@, "0"@), attr("end"@, "1"@)],
        range: Some((start as i64, (start + head - 1) as i64)),
    }
}

/// The track with the overlap created, where there is room for one: the outgoing clip
/// runs on under it, and the second playlist is blank up to it.
pub open spec fn opened(
    b: BuildView,
    placed: Placed,
    transition: Transition,
    audio: bool,
    fps: Fps,
) -> BuildView {
    let head = overlap(b, placed, transition, fps);
    let warnings = b.warnings + overlap_warnings(b, placed, transition, fps);
    if head <= 0 {
        BuildView { warnings, ..b }
    } else {
        let previous = b.main.last()->Entry_0;
        let start = placed.start as int;
        BuildView {
            producers: b.producers,
            ids: IdsView { transition: b.ids.transition + 1, ..b.ids },
            main: b.main.drop_last().push(
                ItemView::Entry(
                    EntryOutView { out_frame: previous.out_frame + head, ..previous },
                ),
            ),
            side: if start > b.side_cursor {
                b.side.push(ItemView::Blank(start - b.side_cursor))
            } else {
                b.side
            },
            side_cursor: larger(start, b.side_cursor),
            transitions: b.transitions.push(
                overlap_transition(audio, b.ids.transition, start, head),
            ),
            warnings,
        }
    }
}

pub open spec fn reverse_warning(clip: Clip) -> Option<WarningView> {
    if clip.reverse {
        Some(
            WarningView {
                code: "reverse-approximated"@,
                target: clip.spec_label(),
                detail: "a reversed clip is exported as a negative-speed timewarp producer; MLT counts its frames from the other end, so check the in-point in the editor"@,
            },
        )
    } else {
        None
    }
}

/// `frames` frames of a producer from `from`, with the clip's filters for that part.
pub open spec fn use_of(
    producer: int,
    clip: Clip,
    audio: bool,
    from: int,
    frames: int,
    fps: Fps,
    part: Part,
) -> ItemView {
    ItemView::Entry(
        EntryOutView {
            producer,
            in_frame: from,
            out_frame: from + frames - 1,
            filters: filters_of(clip, audio, from, frames, fps, part),
        },
    )
}

/// The track with its producer found and everything about the clip reported.
pub open spec fn introduced(
    b: BuildView,
    placed: Placed,
    project: Project,
    audio: bool,
    fps: Fps,
    frames: int,
) -> (BuildView, int) {
    let clip = *placed.clip;
    let (producers, count, at) = interned(
        b.producers,
        b.ids.producer,
        producer_for(resource_of(project, clip), audio, speed_of(clip), fps, frames),
    );
    (
        BuildView {
            producers,
            ids: IdsView { producer: count, ..b.ids },
            warnings: b.warnings + lost_features(clip, "MLT"@) + as_list(
                source_warning(project, clip),
            ) + as_list(reverse_warning(clip)),
            ..b
        },
        at,
    )
}

/// The track with one more clip on it: whole on the first playlist, or its head on the
/// second and what is left of it on the first.
pub open spec fn with_clip(
    b: BuildView,
    placed: Placed,
    project: Project,
    audio: bool,
    paired: bool,
    fps: Fps,
    frames: int,
) -> BuildView {
    let clip = *placed.clip;
    let (ready, at) = introduced(b, placed, project, audio, fps, frames);
    let from = in_point(placed.source_in as int, speed_of(clip));
    let overlapping = paired && clip.transition() is Some;
    let over = if overlapping {
        opened(ready, placed, clip.transition()->0, audio, fps)
    } else {
        ready
    };
    let head = if overlapping {
        overlap(ready, placed, clip.transition()->0, fps)
    } else {
        0
    };
    if head > 0 {
        BuildView {
            side: over.side.push(use_of(at, clip, audio, from, head, fps, Part::Head)),
            side_cursor: over.side_cursor + head,
            main: if placed.frames > head {
                over.main.push(
                    use_of(at, clip, audio, from + head, placed.frames - head, fps, Part::Tail),
                )
            } else {
                over.main
            },
            ..over
        }
    } else {
        BuildView {
            main: over.main.push(
                use_of(at, clip, audio, from, placed.frames as int, fps, Part::Whole),
            ),
            ..over
        }
    }
}

/// The track with one more entry on it.
pub open spec fn with_entry(
    b: BuildView,
    entry: Entry,
    project: Project,
    audio: bool,
    paired: bool,
    fps: Fps,
    frames: int,
) -> BuildView {
    match entry {
        Entry::Blank { frames: blank } => BuildView {
            main: b.main.push(ItemView::Blank(blank as int)),
            ..b
        },
        Entry::Clip(placed) => with_clip(b, placed, project, audio, paired, fps, frames),
    }
}

/// The track with some entries on it.
pub open spec fn with_entries(
    b: BuildView,
    entries: Seq<Entry>,
    project: Project,
    audio: bool,
    paired: bool,
    fps: Fps,
    frames: int,
) -> BuildView
    decreases entries.len(),
{
    if entries.len() == 0 {
        b
    } else {
        with_entry(
            with_entries(b, entries.drop_last(), project, audio, paired, fps, frames),
            entries.last(),
            project,
            audio,
            paired,
            fps,
            frames,
        )
    }
}

/// The first error that laying out the entries meets: a source that cannot be resolved.
pub open spec fn entries_error(entries: Seq<Entry>, project: Project) -> Option<ErrorView>
    decreases entries.len(),
{
    if entries.len() == 0 {
        None
    } else {
        match entries_error(entries.drop_last(), project) {
            Some(error) => Some(error),
            None => match entries.last() {
                Entry::Blank { .. } => None,
                Entry::Clip(placed) => source_error(project, *placed.clip),
            },
        }
    }
}

// ---------------------------------------------------------------------------
// Laws of the playlists
// ---------------------------------------------------------------------------

/// The frames an item takes up. Both ends of an entry are included.
pub open spec fn item_frames(item: ItemView) -> int {
    match item {
        ItemView::Blank(frames) => frames,
        ItemView::Entry(entry) => entry.out_frame - entry.in_frame + 1,
    }
}

pub open spec fn playlist_frames(items: Seq<ItemView>) -> int
    decreases items.len(),
{
    if items.len() == 0 {
        0
    } else {
        playlist_frames(items.drop_last()) + item_frames(items.last())
    }
}

pub broadcast proof fn lemma_playlist_push(items: Seq<ItemView>, item: ItemView)
    ensures
        #[trigger] playlist_frames(items.push(item)) == playlist_frames(items) + item_frames(item),
{
    assert(items.push(item).drop_last() =~= items);
}

/// What holds of a track at every point while its entries are laid out: the first playlist
/// is as long as the entries so far, and the second is no longer and knows its length.
pub open spec fn aligned(b: BuildView, cursor: int) -> bool {
    &&& playlist_frames(b.main) == cursor
    &&& playlist_frames(b.side) == b.side_cursor
    &&& 0 <= b.side_cursor <= cursor
}

/// Each entry is laid out without moving anything: a clip takes its own frames and no
/// others, whether or not it comes in over the clip before it.
pub proof fn lemma_entry_keeps_aligned(
    b: BuildView,
    entry: Entry,
    project: Project,
    audio: bool,
    paired: bool,
    fps: Fps,
    frames: int,
    cursor: int,
)
    requires
        aligned(b, cursor),
        entry is Clip ==> entry->Clip_0.start == cursor && entry->Clip_0.frames >= 1,
        entry is Blank ==> entry->frames >= 0,
    ensures
        aligned(
            with_entry(b, entry, project, audio, paired, fps, frames),
            cursor + entry_frames(entry),
        ),
{
    broadcast use lemma_playlist_push;

    match entry {
        Entry::Blank { .. } => {},
        Entry::Clip(placed) => {
            let clip = *placed.clip;
            let (ready, at) = introduced(b, placed, project, audio, fps, frames);
            assert(ready.main == b.main && ready.side == b.side);
            if paired && clip.transition() is Some {
                let t = clip.transition()->0;
                let head = overlap(ready, placed, t, fps);
                if head > 0 {
                    assert(ready.main =~= ready.main.drop_last().push(ready.main.last()));
                }
            }
        },
    }
}

/// The entries of a track as they are laid out on its playlists: the first playlist is
/// exactly as long as the track, blanks included, and what stands on the second playlist
/// ends no later.
pub proof fn law_playlists_are_as_long_as_the_track(
    b: BuildView,
    clips: Seq<Clip>,
    n: int,
    project: Project,
    audio: bool,
    paired: bool,
    fps: Fps,
    frames: int,
)
    requires
        crate::timeline::on_grid(clips, fps),
        b.main.len() == 0,
        b.side.len() == 0,
        b.side_cursor == 0,
        0 <= n <= entries_of(clips, fps).len(),
    ensures
        aligned(
            with_entries(b, entries_of(clips, fps).take(n), project, audio, paired, fps, frames),
            frames_in(entries_of(clips, fps).take(n)),
        ),
    decreases n,
{
    let entries = entries_of(clips, fps);
    if n > 0 {
        law_playlists_are_as_long_as_the_track(
            b,
            clips,
            n - 1,
            project,
            audio,
            paired,
            fps,
            frames,
        );
        assert(entries.take(n).drop_last() =~= entries.take(n - 1));
        let entry = entries[n - 1];
        if entry is Clip {
            crate::timeline::law_clips_stand_where_the_entries_before_them_end(
                clips,
                fps,
                n - 1,
            );
        } else {
            crate::timeline::lemma_blanks_are_not_negative(clips, fps, n - 1);
        }
        lemma_entry_keeps_aligned(
            with_entries(b, entries.take(n - 1), project, audio, paired, fps, frames),
            entry,
            project,
            audio,
            paired,
            fps,
            frames,
            frames_in(entries.take(n - 1)),
        );
    }
}

/// The head of a clip that comes in over another stands on the second playlist at the
/// frame where the clip starts.
pub proof fn law_an_overlap_starts_where_the_clip_does(
    b: BuildView,
    placed: Placed,
    project: Project,
    audio: bool,
    fps: Fps,
    frames: int,
)
    requires
        aligned(b, placed.start as int),
        placed.frames >= 1,
        placed.clip.transition() is Some,
        overlap(
            introduced(b, placed, project, audio, fps, frames).0,
            placed,
            placed.clip.transition()->0,
            fps,
        ) > 0,
    ensures
        ({
            let after = with_clip(b, placed, project, audio, true, fps, frames);
            &&& after.side.last() is Entry
            &&& playlist_frames(after.side.drop_last()) == placed.start
            &&& item_frames(after.side.last()) <= placed.frames
        }),
{
    broadcast use lemma_playlist_push;

    let (ready, at) = introduced(b, placed, project, audio, fps, frames);
    let over = opened(ready, placed, placed.clip.transition()->0, audio, fps);
    let after = with_clip(b, placed, project, audio, true, fps, frames);
    assert(after.side.drop_last() =~= over.side);
}

// ---------------------------------------------------------------------------
// Laying out
// ---------------------------------------------------------------------------

/// Whether a clip can be laid out with frame numbers: its in-point, its fades, its
/// transition and the length of what it reads.
pub open spec fn clip_fits(project: Project, clip: Clip, fps: Fps) -> bool {
    &&& clip.wf()
    &&& fades_fit(clip, fps)
    &&& in_point(clip.source_in.round_frame(fps), speed_of(clip)) < FRAME_LIMIT
    &&& clip.transition() is Some ==> -FRAME_LIMIT < clip.transition()->0.duration.round_frame(fps)
        < FRAME_LIMIT
    &&& (source_error(project, clip) is None && resource_of(project, clip) is File) ==> asset_fits(
        *resource_of(project, clip)->asset,
        fps,
        speed_of(clip),
    )
}

/// What laying out keeps true of a track: every use is of a known producer, and no frame
/// number is out of range.
pub open spec fn build_ok(b: BuildView) -> bool {
    &&& b.ids.producer == b.producers.len()
    &&& forall|k: int|
        0 <= k < b.producers.len() ==> 0 < (#[trigger] b.producers[k]).length < FRAME_LIMIT
    &&& forall|k: int| 0 <= k < b.main.len() ==> item_ok(#[trigger] b.main[k], b.producers.len())
    &&& forall|k: int| 0 <= k < b.side.len() ==> item_ok(#[trigger] b.side[k], b.producers.len())
    &&& 0 <= b.side_cursor
}

pub open spec fn item_ok(item: ItemView, producers: nat) -> bool {
    item matches ItemView::Entry(entry) ==> {
        &&& 0 <= entry.producer < producers
        &&& 0 <= entry.in_frame <= entry.out_frame < 2 * FRAME_LIMIT
    }
}

pub open spec fn placed_ok(placed: Placed, project: Project, fps: Fps) -> bool {
    &&& clip_fits(project, *placed.clip, fps)
    &&& placed.source_in == placed.clip.source_in.round_frame(fps)
    &&& -FRAME_LIMIT < placed.source_in < FRAME_LIMIT
    &&& 0 <= placed.start < FRAME_LIMIT
    &&& 1 <= placed.frames < FRAME_LIMIT
    &&& placed.start + placed.frames < FRAME_LIMIT
}

fn detail3(a: &str, b: &str, c: &str) -> (r: String)
    ensures
        r@ == a@ + b@ + c@,
{
    let mut out = a.to_owned();
    out.append(b);
    out.append(c);
    out
}

/// Creates the overlap for a transition, where there is room. Returns how many frames of
/// the incoming clip go on the second playlist: none where it could not be created.
pub fn open_transition(
    b: &mut Build,
    placed: &Placed<'_>,
    transition: Transition,
    audio: bool,
    fps: Fps,
) -> (head: i64)
    requires
        build_ok(old(b)@),
        old(b).side_cursor <= placed.start,
        fps.wf(),
        transition.wf(),
        -FRAME_LIMIT < transition.duration.round_frame(fps) < FRAME_LIMIT,
        0 <= placed.start < FRAME_LIMIT,
        1 <= placed.frames < FRAME_LIMIT,
        old(b).ids.transition < u128::MAX,
    ensures
        final(b)@ == opened(old(b)@, *placed, transition, audio, fps),
        head == overlap(old(b)@, *placed, transition, fps),
        build_ok(final(b)@),
        0 <= head <= placed.frames,
{
    let ghost before = b@;
    proof {
        lemma_opened_ok(before, *placed, transition, audio, fps);
    }
    let measured: i64 = transition.duration.frame_round(fps);
    let wanted: i64 = if measured >= 1 {
        measured
    } else {
        1
    };
    let target = placed.clip.label().to_owned();
    let kind = kind_name(transition.kind);
    let n: usize = b.main.len();
    if n == 0 || !matches!(b.main[n - 1], Item::Entry(_)) {
        proof {
            if n > 0 {
                assert(before.main.last() == b.main@[n - 1]@);
            }
        }
        push_view(
            &mut b.warnings,
            Warning {
                code: "transition-dropped",
                target,
                detail: "a transition needs a clip to come from; there is none before this one, so the export has a cut here".to_owned(),
            },
        );
        assert(b@.warnings =~= before.warnings + overlap_warnings(before, *placed, transition, fps));
        return 0;
    }
    assert(before.main.last() == b.main@[n - 1]@);
    assert(item_ok(before.main[n - 1], before.producers.len()));
    let (producer, out_frame): (usize, i64) = match &b.main[n - 1] {
        Item::Entry(previous) => (previous.producer, previous.out_frame),
        Item::Blank(_) => (0, 0),
    };
    assert(before.producers[producer as int] == b.producers@[producer as int]@);
    let available: i64 = b.producers[producer].length - (out_frame + 1);
    let room: i64 = if available > 0 {
        available
    } else {
        0
    };
    let asked: i64 = if wanted <= placed.frames {
        wanted
    } else {
        placed.frames
    };
    let head: i64 = if asked <= room {
        asked
    } else {
        room
    };
    if head <= 0 {
        push_view(
            &mut b.warnings,
            Warning {
                code: "transition-dropped",
                target,
                detail: detail3(
                    "the outgoing clip has no source left past its out point, so the ",
                    kind,
                    " could not be built and the export has a cut here",
                ),
            },
        );
        assert(b@.warnings =~= before.warnings + overlap_warnings(before, *placed, transition, fps));
        return 0;
    }
    if head < wanted {
        let mut detail = "the ".to_owned();
        detail.append(kind);
        detail.append(" was shortened from ");
        detail.append(integer(wanted).as_str());
        detail.append(" to ");
        detail.append(integer(head).as_str());
        detail.append(" frames: that is all the source the outgoing clip has left");
        push_view(
            &mut b.warnings,
            Warning { code: "transition-shortened", target: target.clone(), detail },
        );
    }
    if transition.kind != TransitionKind::Dissolve {
        push_view(
            &mut b.warnings,
            Warning {
                code: "transition-approximated",
                target,
                detail: detail3(
                    "MLT has no direct equivalent of a ",
                    kind,
                    "; it was exported as a dissolve of the same length",
                ),
            },
        );
    }
    assert(b@.warnings =~= before.warnings + overlap_warnings(before, *placed, transition, fps));
    if let Some(Item::Entry(previous)) = b.main.pop() {
        let mut longer = previous;
        longer.out_frame = longer.out_frame + head;
        push_view(&mut b.main, Item::Entry(longer));
    }
    assert(b@.main =~= opened(before, *placed, transition, audio, fps).main);
    if placed.start > b.side_cursor {
        let gap: i64 = placed.start - b.side_cursor;
        push_view(&mut b.side, Item::Blank(gap));
        b.side_cursor = placed.start;
    }
    let service: &str = if audio {
        "mix"
    } else {
        "luma"
    };
    let id = b.ids.transition();
    push_view(
        &mut b.transitions,
        TransitionOut {
            id,
            service: service.to_owned(),
            a_track: 0,
            b_track: 1,
            props: attrs2("start", "0", "end", "1"),
            range: Some((placed.start, placed.start + head - 1)),
        },
    );
    head
}

proof fn lemma_introduced_ok(
    b: BuildView,
    placed: Placed,
    project: Project,
    audio: bool,
    fps: Fps,
    frames: int,
)
    requires
        build_ok(b),
        placed_ok(placed, project, fps),
        source_error(project, *placed.clip) is None,
        0 < frames < FRAME_LIMIT,
    ensures
        build_ok(introduced(b, placed, project, audio, fps, frames).0),
        0 <= introduced(b, placed, project, audio, fps, frames).1 < introduced(
            b,
            placed,
            project,
            audio,
            fps,
            frames,
        ).0.producers.len(),
{
    let clip = *placed.clip;
    let new = producer_for(resource_of(project, clip), audio, speed_of(clip), fps, frames);
    let (ready, at) = introduced(b, placed, project, audio, fps, frames);
    crate::project::lemma_index_of(crate::mlt::producer_keys(b.producers), new.key);
    assert(0 < new.length < FRAME_LIMIT);
    assert forall|k: int| 0 <= k < ready.producers.len() implies 0 < (
    #[trigger] ready.producers[k]).length < FRAME_LIMIT by {
        if k < b.producers.len() {
            assert(ready.producers[k] == b.producers[k]);
        }
    }
    assert forall|k: int| 0 <= k < ready.main.len() implies item_ok(
        #[trigger] ready.main[k],
        ready.producers.len(),
    ) by {
        assert(item_ok(b.main[k], b.producers.len()));
    }
    assert forall|k: int| 0 <= k < ready.side.len() implies item_ok(
        #[trigger] ready.side[k],
        ready.producers.len(),
    ) by {
        assert(item_ok(b.side[k], b.producers.len()));
    }
}

proof fn lemma_opened_ok(
    b: BuildView,
    placed: Placed,
    transition: Transition,
    audio: bool,
    fps: Fps,
)
    requires
        build_ok(b),
        0 <= placed.start < FRAME_LIMIT,
        1 <= placed.frames < FRAME_LIMIT,
    ensures
        build_ok(opened(b, placed, transition, audio, fps)),
{
    let after = opened(b, placed, transition, audio, fps);
    let head = overlap(b, placed, transition, fps);
    if head > 0 {
        assert(b.main.last() == b.main[b.main.len() - 1]);
        assert(item_ok(b.main[b.main.len() - 1], b.producers.len()));
        let previous = b.main.last()->Entry_0;
        assert(0 < b.producers[previous.producer].length < FRAME_LIMIT);
        assert forall|k: int| 0 <= k < after.main.len() implies item_ok(
            #[trigger] after.main[k],
            after.producers.len(),
        ) by {
            if k < b.main.len() - 1 {
                assert(after.main[k] == b.main[k]);
            }
        }
    }
}

/// The producer that a clip uses, after everything there is to report about the clip.
fn introduce(
    b: &mut Build,
    placed: &Placed<'_>,
    project: &Project,
    audio: bool,
    fps: Fps,
    frames: i64,
) -> (r: Result<usize, Error>)
    requires
        build_ok(old(b)@),
        fps.wf(),
        placed_ok(*placed, *project, fps),
        0 < frames < FRAME_LIMIT,
    ensures
        r is Err <==> source_error(*project, *placed.clip) is Some,
        r is Err ==> Some(r->Err_0@) == source_error(*project, *placed.clip),
        r is Ok ==> (final(b)@, r->Ok_0 as int) == introduced(
            old(b)@,
            *placed,
            *project,
            audio,
            fps,
            frames as int,
        ),
{
    let ghost before = b@;
    let clip = placed.clip;
    let (resource, warning) = match resolve_source(project, clip) {
        Ok(found) => found,
        Err(error) => {
            return Err(error);
        },
    };
    extend(&mut b.warnings, feature_warnings(clip, "MLT"));
    push_warning(&mut b.warnings, warning);
    let speed = clip_speed(clip);
    if clip.reverse {
        push_view(
            &mut b.warnings,
            Warning {
                code: "reverse-approximated",
                target: clip.label().to_owned(),
                detail: "a reversed clip is exported as a negative-speed timewarp producer; MLT counts its frames from the other end, so check the in-point in the editor".to_owned(),
            },
        );
    }
    let known: usize = b.producers.len();
    assert(before.producers.len() == known);
    let producer: usize = intern(
        &mut b.producers,
        &mut b.ids,
        resource,
        audio,
        speed,
        fps,
        frames,
    );
    assert(b@.warnings =~= introduced(
        before,
        *placed,
        *project,
        audio,
        fps,
        frames as int,
    ).0.warnings);
    Ok(producer)
}

/// Puts one clip on the track.
pub fn add_clip(
    b: &mut Build,
    placed: &Placed<'_>,
    project: &Project,
    audio: bool,
    paired: bool,
    fps: Fps,
    frames: i64,
) -> (r: Result<(), Error>)
    requires
        build_ok(old(b)@),
        old(b).side_cursor <= placed.start,
        fps.wf(),
        placed_ok(*placed, *project, fps),
        0 < frames < FRAME_LIMIT,
        old(b).ids.transition < u128::MAX,
    ensures
        r is Err <==> source_error(*project, *placed.clip) is Some,
        r is Err ==> Some(r->Err_0@) == source_error(*project, *placed.clip),
        r is Ok ==> final(b)@ == with_clip(
            old(b)@,
            *placed,
            *project,
            audio,
            paired,
            fps,
            frames as int,
        ),
        r is Ok ==> build_ok(final(b)@),
{
    let ghost before = b@;
    let clip = placed.clip;
    let producer: usize = match introduce(b, placed, project, audio, fps, frames) {
        Ok(producer) => producer,
        Err(error) => {
            return Err(error);
        },
    };
    let ghost ready = introduced(before, *placed, *project, audio, fps, frames as int).0;
    proof {
        lemma_introduced_ok(before, *placed, *project, audio, fps, frames as int);
    }
    let from: i64 = in_frame_of(placed.source_in, clip_speed(clip));
    let mut head: i64 = 0;
    if paired {
        if let Some(transition) = clip.shown_transition() {
            head = open_transition(b, placed, transition, audio, fps);
        }
    }
    let ghost over = b@;
    if head > 0 {
        let filters = clip_filters(clip, audio, from, head, fps, Part::Head);
        push_view(
            &mut b.side,
            Item::Entry(EntryOut { producer, in_frame: from, out_frame: from + head - 1, filters }),
        );
        b.side_cursor = b.side_cursor + head;
        if placed.frames > head {
            let rest: i64 = placed.frames - head;
            let filters = clip_filters(clip, audio, from + head, rest, fps, Part::Tail);
            push_view(
                &mut b.main,
                Item::Entry(
                    EntryOut {
                        producer,
                        in_frame: from + head,
                        out_frame: from + placed.frames - 1,
                        filters,
                    },
                ),
            );
        }
    } else {
        let filters = clip_filters(clip, audio, from, placed.frames, fps, Part::Whole);
        push_view(
            &mut b.main,
            Item::Entry(
                EntryOut {
                    producer,
                    in_frame: from,
                    out_frame: from + placed.frames - 1,
                    filters,
                },
            ),
        );
    }
    proof {
        lemma_items_grow(over, b@);
    }
    Ok(())
}

/// A playlist with good items keeps them when good ones are added.
proof fn lemma_items_grow(over: BuildView, after: BuildView)
    requires
        build_ok(over),
        after.producers == over.producers,
        after.ids == over.ids,
        after.side_cursor >= over.side_cursor,
        after.main == over.main || (exists|x: ItemView|
            after.main == #[trigger] over.main.push(x) && item_ok(x, over.producers.len())),
        after.side == over.side || (exists|x: ItemView|
            after.side == #[trigger] over.side.push(x) && item_ok(x, over.producers.len())),
    ensures
        build_ok(after),
{
    assert forall|k: int| 0 <= k < after.main.len() implies item_ok(
        #[trigger] after.main[k],
        after.producers.len(),
    ) by {
        if k < over.main.len() {
            assert(after.main[k] == over.main[k]);
        }
    }
    assert forall|k: int| 0 <= k < after.side.len() implies item_ok(
        #[trigger] after.side[k],
        after.producers.len(),
    ) by {
        if k < over.side.len() {
            assert(after.side[k] == over.side[k]);
        }
    }
}

/// Lays out the entries of a track.
pub fn add_entries(
    b: &mut Build,
    entries: &Vec<Entry<'_>>,
    clips: &Vec<Clip>,
    project: &Project,
    audio: bool,
    paired: bool,
    fps: Fps,
    frames: i64,
) -> (r: Result<(), Error>)
    requires
        build_ok(old(b)@),
        old(b)@.main.len() == 0,
        old(b)@.side.len() == 0,
        old(b).side_cursor == 0,
        fps.wf(),
        crate::timeline::on_grid(clips@, fps),
        entries@ == entries_of(clips@, fps),
        forall|k: int|
            0 <= k < clips@.len() ==> clip_fits(*project, #[trigger] clips@[k], fps),
        0 < frames < FRAME_LIMIT,
        old(b).ids.transition + entries@.len() < u128::MAX,
    ensures
        r is Err <==> entries_error(entries@, *project) is Some,
        r is Err ==> Some(r->Err_0@) == entries_error(entries@, *project),
        r is Ok ==> final(b)@ == with_entries(
            old(b)@,
            entries@,
            *project,
            audio,
            paired,
            fps,
            frames as int,
        ),
        r is Ok ==> build_ok(final(b)@),
        r is Ok ==> final(b).ids.transition <= old(b).ids.transition + entries@.len(),
        r is Ok ==> final(b).ids.playlist == old(b).ids.playlist,
        r is Ok ==> final(b).ids.tractor == old(b).ids.tractor,
{
    let ghost start = b@;
    let mut i: usize = 0;
    assert(entries@.take(0) =~= seq![]);
    while i < entries.len()
        invariant
            i <= entries@.len(),
            start == old(b)@,
            start.main.len() == 0,
            start.side.len() == 0,
            start.side_cursor == 0,
            fps.wf(),
            crate::timeline::on_grid(clips@, fps),
            entries@ == entries_of(clips@, fps),
            forall|k: int|
                0 <= k < clips@.len() ==> clip_fits(*project, #[trigger] clips@[k], fps),
            0 < frames < FRAME_LIMIT,
            old(b).ids.transition + entries@.len() < u128::MAX,
            b@ == with_entries(
                start,
                entries@.take(i as int),
                *project,
                audio,
                paired,
                fps,
                frames as int,
            ),
            build_ok(b@),
            entries_error(entries@.take(i as int), *project) is None,
            b.ids.transition <= old(b).ids.transition + i,
            b.ids.playlist == old(b).ids.playlist,
            b.ids.tractor == old(b).ids.tractor,
        decreases entries@.len() - i,
    {
        proof {
            assert(entries@.take(i + 1).drop_last() =~= entries@.take(i as int));
            assert(entries@.take(i + 1).last() == entries@[i as int]);
        }
        match &entries[i] {
            Entry::Blank { frames: blank } => {
                let ghost over = b@;
                push_view(&mut b.main, Item::Blank(*blank));
                proof {
                    lemma_items_grow(over, b@);
                }
            },
            Entry::Clip(placed) => {
                proof {
                    law_playlists_are_as_long_as_the_track(
                        start,
                        clips@,
                        i as int,
                        *project,
                        audio,
                        paired,
                        fps,
                        frames as int,
                    );
                    crate::timeline::law_clips_stand_where_the_entries_before_them_end(
                        clips@,
                        fps,
                        i as int,
                    );
                    crate::timeline::lemma_placed(clips@, fps, i as int);
                }
                match add_clip(b, placed, project, audio, paired, fps, frames) {
                    Ok(()) => {},
                    Err(error) => {
                        proof {
                            lemma_entries_error(entries@, *project, i + 1);
                        }
                        return Err(error);
                    },
                }
            },
        }
        i = i + 1;
    }
    assert(entries@.take(i as int) =~= entries@);
    Ok(())
}

/// An error met early is the error of the whole.
pub proof fn lemma_entries_error(entries: Seq<Entry>, project: Project, n: int)
    requires
        0 <= n <= entries.len(),
        entries_error(entries.take(n), project) is Some,
    ensures
        entries_error(entries, project) == entries_error(entries.take(n), project),
    decreases entries.len(),
{
    if n == entries.len() {
        assert(entries.take(n) =~= entries);
    } else {
        assert(entries.drop_last().take(n) =~= entries.take(n));
        lemma_entries_error(entries.drop_last(), project, n);
    }
}

} // verus!
