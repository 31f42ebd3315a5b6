//! What the loop tools answer.

use crate::coverage::{sequence_sane, tracks_end};
use crate::error::{Error, ErrorView};
use crate::finding::{counts_of, count_findings, worst_of, Finding, FindingView, Severity};
use crate::json::{
    array, boolean, field, null, number, object, push_field, push_text_field, text, FieldView, Json,
    JsonField, JsonView,
};
use crate::number::number_text;
use crate::paths::{join_path, joined_path};
use crate::project::{Asset, AssetKind, Project, Sequence, Track, TrackKind};
use crate::rational::{round_half_away, rounded, Rat};
use crate::text::{dec, dec_int, decimal, push_int};
use crate::time::{Fps, Span, Time};
use crate::views::{push_view, views};
use vstd::prelude::*;

verus! {

pub open spec fn count_json(n: nat) -> JsonView {
    JsonView::Number(dec(n))
}

pub fn counted(n: u128) -> (r: Json)
    ensures
        r@ == count_json(n as nat),
{
    number(decimal(n).as_str())
}

pub open spec fn size_json(size: [u32; 2]) -> JsonView {
    JsonView::Array(seq![count_json(size@[0] as nat), count_json(size@[1] as nat)])
}

pub fn size_report(size: [u32; 2]) -> (r: Json)
    ensures
        r@ == size_json(size),
{
    let mut items: Vec<Json> = Vec::new();
    assert(views(items@) =~= seq![]);
    push_view(&mut items, counted(size[0] as u128));
    push_view(&mut items, counted(size[1] as u128));
    assert(views(items@) =~= size_json(size)->Array_0);
    array(items)
}

// ---------------------------------------------------------------------------
// The project at a glance
// ---------------------------------------------------------------------------

pub open spec fn kind_text(kind: TrackKind) -> Seq<char> {
    match kind {
        TrackKind::Video => "video"@,
        TrackKind::Audio => "audio"@,
        TrackKind::Caption => "caption"@,
    }
}

fn kind_name(kind: TrackKind) -> (r: &'static str)
    ensures
        r@ == kind_text(kind),
{
    match kind {
        TrackKind::Video => "video",
        TrackKind::Audio => "audio",
        TrackKind::Caption => "caption",
    }
}

pub open spec fn asset_text(kind: AssetKind) -> Seq<char> {
    match kind {
        AssetKind::Video => "video"@,
        AssetKind::Audio => "audio"@,
        AssetKind::Image => "image"@,
        AssetKind::Font => "font"@,
        AssetKind::Lut => "lut"@,
        AssetKind::Subtitle => "subtitle"@,
        AssetKind::Other => "other"@,
    }
}

fn asset_name(kind: AssetKind) -> (r: &'static str)
    ensures
        r@ == asset_text(kind),
{
    match kind {
        AssetKind::Video => "video",
        AssetKind::Audio => "audio",
        AssetKind::Image => "image",
        AssetKind::Font => "font",
        AssetKind::Lut => "lut",
        AssetKind::Subtitle => "subtitle",
        AssetKind::Other => "other",
    }
}

pub open spec fn track_json(track: Track) -> JsonView {
    JsonView::Object(
        seq![
            field("id"@, JsonView::Text(track.id@)),
            field("name"@, JsonView::Text(track.name@)),
            field("kind"@, JsonView::Text(kind_text(track.kind))),
            field("clips"@, count_json(track.clips@.len())),
            field("cues"@, count_json(track.cues@.len())),
            field("muted"@, JsonView::Bool(track.muted)),
            field("locked"@, JsonView::Bool(track.locked)),
            field(
                "duration"@,
                if track.clips@.len() > 0 {
                    JsonView::Text(track.clips@.last().spec_end().text())
                } else {
                    JsonView::Null
                },
            ),
        ],
    )
}

fn track_report(track: &Track) -> (r: Json)
    requires
        crate::coverage::track_sane(*track),
    ensures
        r@ == track_json(*track),
{
    let n: usize = track.clips.len();
    let end = if n > 0 {
        assert(track.clips@[n - 1].wf());
        text(track.clips[n - 1].end().to_text().as_str())
    } else {
        null()
    };
    let mut fields: Vec<JsonField> = Vec::new();
    push_text_field(&mut fields, "id", track.id.as_str());
    push_text_field(&mut fields, "name", track.name.as_str());
    push_text_field(&mut fields, "kind", kind_name(track.kind));
    push_field(&mut fields, "clips", counted(n as u128));
    push_field(&mut fields, "cues", counted(track.cues.len() as u128));
    push_field(&mut fields, "muted", boolean(track.muted));
    push_field(&mut fields, "locked", boolean(track.locked));
    push_field(&mut fields, "duration", end);
    assert(views(fields@) =~= track_json(*track)->Object_0);
    object(fields)
}

pub open spec fn tracks_json(tracks: Seq<Track>) -> Seq<JsonView> {
    tracks.map_values(|track: Track| track_json(track))
}

fn track_reports(tracks: &Vec<Track>) -> (r: Json)
    requires
        forall|t: int| 0 <= t < tracks@.len() ==> crate::coverage::track_sane(
            #[trigger] tracks@[t],
        ),
    ensures
        r@ == JsonView::Array(tracks_json(tracks@)),
{
    let mut out: Vec<Json> = Vec::new();
    let mut i: usize = 0;
    while i < tracks.len()
        invariant
            i <= tracks@.len(),
            forall|t: int| 0 <= t < tracks@.len() ==> crate::coverage::track_sane(
                #[trigger] tracks@[t],
            ),
            views(out@) =~= tracks_json(tracks@).take(i as int),
        decreases tracks@.len() - i,
    {
        push_view(&mut out, track_report(&tracks[i]));
        i = i + 1;
    }
    assert(views(out@) =~= tracks_json(tracks@));
    array(out)
}

pub open spec fn sequence_json(sequence: Sequence, active: Seq<char>) -> JsonView {
    let duration = tracks_end(sequence.tracks@);
    JsonView::Object(
        seq![
            field("id"@, JsonView::Text(sequence.id@)),
            field("name"@, JsonView::Text(sequence.name@)),
            field("fps"@, JsonView::Text(sequence.fps.text())),
            field("size"@, size_json(sequence.size)),
            field("sampleRate"@, count_json(sequence.sample_rate as nat)),
            field("duration"@, JsonView::Text(duration.text())),
            field("frames"@, JsonView::Number(dec_int(duration.round_frame(sequence.fps)))),
            field("timecode"@, JsonView::Text(duration.timecode_text(sequence.fps))),
            field("tracks"@, JsonView::Array(tracks_json(sequence.tracks@))),
            field("markers"@, count_json(sequence.markers@.len())),
            field("active"@, JsonView::Bool(sequence.id@ == active)),
        ],
    )
}

fn sequence_report(sequence: &Sequence, active: &str) -> (r: Json)
    requires
        sequence_sane(*sequence),
    ensures
        r@ == sequence_json(*sequence, active@),
{
    let duration = sequence.duration();
    let mut frames = String::new();
    push_int(&mut frames, duration.wide_frame_round(sequence.fps));
    assert(frames@ =~= dec_int(duration.round_frame(sequence.fps)));
    let mut fields: Vec<JsonField> = Vec::new();
    push_text_field(&mut fields, "id", sequence.id.as_str());
    push_text_field(&mut fields, "name", sequence.name.as_str());
    push_text_field(&mut fields, "fps", sequence.fps.to_text().as_str());
    push_field(&mut fields, "size", size_report(sequence.size));
    push_field(&mut fields, "sampleRate", counted(sequence.sample_rate as u128));
    push_text_field(&mut fields, "duration", duration.to_text().as_str());
    push_field(&mut fields, "frames", number(frames.as_str()));
    push_text_field(&mut fields, "timecode", duration.timecode(sequence.fps).as_str());
    push_field(&mut fields, "tracks", track_reports(&sequence.tracks));
    push_field(&mut fields, "markers", counted(sequence.markers.len() as u128));
    push_field(
        &mut fields,
        "active",
        boolean(crate::text::same(sequence.id.as_str(), active)),
    );
    assert(views(fields@) =~= sequence_json(*sequence, active@)->Object_0);
    object(fields)
}

pub open spec fn sequences_json(sequences: Seq<Sequence>, active: Seq<char>) -> Seq<JsonView> {
    sequences.map_values(|sequence: Sequence| sequence_json(sequence, active))
}

pub open spec fn asset_json(asset: Asset) -> JsonView {
    JsonView::Object(
        seq![
            field("id"@, JsonView::Text(asset.id@)),
            field("name"@, JsonView::Text(asset.name@)),
            field("kind"@, JsonView::Text(asset_text(asset.kind))),
            field("duration"@, JsonView::Text(asset.probe.duration.text())),
            field(
                "size"@,
                match asset.probe.video {
                    Some(video) => size_json(video.size),
                    None => JsonView::Null,
                },
            ),
            field(
                "fps"@,
                match asset.probe.video {
                    Some(video) => JsonView::Text(video.fps.text()),
                    None => JsonView::Null,
                },
            ),
            field("vfr"@, JsonView::Bool(asset.probe.vfr)),
            field("proxy"@, JsonView::Bool(asset.proxy is Some)),
            field("present"@, JsonView::Bool(asset.path is Some)),
        ],
    )
}

fn asset_report(asset: &Asset) -> (r: Json)
    ensures
        r@ == asset_json(*asset),
{
    let size = match &asset.probe.video {
        Some(video) => size_report(video.size),
        None => null(),
    };
    let fps = match &asset.probe.video {
        Some(video) => text(video.fps.to_text().as_str()),
        None => null(),
    };
    let mut fields: Vec<JsonField> = Vec::new();
    push_text_field(&mut fields, "id", asset.id.as_str());
    push_text_field(&mut fields, "name", asset.name.as_str());
    push_text_field(&mut fields, "kind", asset_name(asset.kind));
    push_text_field(&mut fields, "duration", asset.probe.duration.to_text().as_str());
    push_field(&mut fields, "size", size);
    push_field(&mut fields, "fps", fps);
    push_field(&mut fields, "vfr", boolean(asset.probe.vfr));
    push_field(&mut fields, "proxy", boolean(asset.proxy.is_some()));
    push_field(&mut fields, "present", boolean(asset.path.is_some()));
    assert(views(fields@) =~= asset_json(*asset)->Object_0);
    object(fields)
}

pub open spec fn assets_json(assets: Seq<Asset>) -> Seq<JsonView> {
    assets.map_values(|asset: Asset| asset_json(asset))
}

/// An entry of the journal: an operation that was applied.
#[derive(Debug)]
pub struct JournalEntry {
    pub seq: u64,
    pub ts: String,
    pub actor: String,
    pub op: String,
    pub args: Json,
    pub target: Json,
}

pub open spec fn brief_json(entry: JournalEntry) -> JsonView {
    JsonView::Object(
        seq![
            field("seq"@, count_json(entry.seq as nat)),
            field("op"@, JsonView::Text(entry.op@)),
            field("actor"@, JsonView::Text(entry.actor@)),
        ],
    )
}

/// The latest entries, newest first, at most `n` of them.
pub open spec fn latest(entries: Seq<JournalEntry>, n: int) -> Seq<JsonView>
    decreases n,
{
    if n <= 0 || entries.len() == 0 {
        seq![]
    } else {
        seq![brief_json(entries.last())] + latest(entries.drop_last(), n - 1)
    }
}

fn brief(entry: &JournalEntry) -> (r: Json)
    ensures
        r@ == brief_json(*entry),
{
    let mut fields: Vec<JsonField> = Vec::new();
    push_field(&mut fields, "seq", counted(entry.seq as u128));
    push_text_field(&mut fields, "op", entry.op.as_str());
    push_text_field(&mut fields, "actor", entry.actor.as_str());
    assert(views(fields@) =~= brief_json(*entry)->Object_0);
    object(fields)
}

fn latest_entries(entries: &Vec<JournalEntry>) -> (r: Json)
    ensures
        r@ == JsonView::Array(latest(entries@, 5)),
{
    let mut out: Vec<Json> = Vec::new();
    let mut left: usize = entries.len();
    let mut n: usize = 5;
    assert(entries@.take(left as int) =~= entries@);
    assert(views(out@) =~= seq![]);
    assert(Seq::<JsonView>::empty() + latest(entries@, 5) =~= latest(entries@, 5));
    while left > 0 && n > 0
        invariant
            left <= entries@.len(),
            n <= 5,
            views(out@) + latest(entries@.take(left as int), n as int) == latest(entries@, 5),
        decreases left,
    {
        let ghost before = views(out@);
        let ghost rest = entries@.take(left as int);
        assert(rest.drop_last() =~= entries@.take(left - 1));
        assert(rest.last() == entries@[left - 1]);
        push_view(&mut out, brief(&entries[left - 1]));
        assert(before + (seq![brief_json(rest.last())] + latest(rest.drop_last(), n - 1)) =~= views(
            out@,
        ) + latest(entries@.take(left - 1), n - 1));
        left = left - 1;
        n = n - 1;
    }
    assert(latest(entries@.take(left as int), n as int) =~= seq![]);
    assert(views(out@) =~= latest(entries@, 5));
    array(out)
}

/// Facts about a project that stand beside its document.
#[derive(Debug)]
pub struct Place {
    pub format: u32,
    pub root: String,
    pub modified: String,
}

pub open spec fn project_json(project: Project, place: Place) -> JsonView {
    JsonView::Object(
        seq![
            field("id"@, JsonView::Text(project.id@)),
            field("name"@, JsonView::Text(project.name@)),
            field("format"@, count_json(place.format as nat)),
            field("root"@, JsonView::Text(place.root@)),
            field("activeSequence"@, JsonView::Text(project.active_sequence@)),
            field("modified"@, JsonView::Text(place.modified@)),
        ],
    )
}

pub open spec fn journal_json(entries: Seq<JournalEntry>) -> JsonView {
    JsonView::Object(
        seq![
            field("entries"@, count_json(entries.len())),
            field("last"@, JsonView::Array(latest(entries, 5))),
        ],
    )
}

/// What a project holds, without rendering anything.
pub open spec fn overview_json(
    project: Project,
    place: Place,
    entries: Seq<JournalEntry>,
    tools: JsonView,
) -> JsonView {
    JsonView::Object(
        seq![
            field("project"@, project_json(project, place)),
            field(
                "sequences"@,
                JsonView::Array(sequences_json(project.sequences@, project.active_sequence@)),
            ),
            field("assets"@, JsonView::Array(assets_json(project.assets@))),
            field("history"@, journal_json(entries)),
            field("tools"@, tools),
        ],
    )
}

fn project_report(project: &Project, place: &Place) -> (r: Json)
    ensures
        r@ == project_json(*project, *place),
{
    let mut fields: Vec<JsonField> = Vec::new();
    push_text_field(&mut fields, "id", project.id.as_str());
    push_text_field(&mut fields, "name", project.name.as_str());
    push_field(&mut fields, "format", counted(place.format as u128));
    push_text_field(&mut fields, "root", place.root.as_str());
    push_text_field(&mut fields, "activeSequence", project.active_sequence.as_str());
    push_text_field(&mut fields, "modified", place.modified.as_str());
    assert(views(fields@) =~= project_json(*project, *place)->Object_0);
    object(fields)
}

fn sequence_reports(project: &Project) -> (r: Json)
    requires
        forall|s: int|
            0 <= s < project.sequences@.len() ==> sequence_sane(#[trigger] project.sequences@[s]),
    ensures
        r@ == JsonView::Array(sequences_json(project.sequences@, project.active_sequence@)),
{
    let ghost all = sequences_json(project.sequences@, project.active_sequence@);
    let mut out: Vec<Json> = Vec::new();
    let mut i: usize = 0;
    while i < project.sequences.len()
        invariant
            i <= project.sequences@.len(),
            forall|s: int|
                0 <= s < project.sequences@.len() ==> sequence_sane(
                    #[trigger] project.sequences@[s],
                ),
            all == sequences_json(project.sequences@, project.active_sequence@),
            views(out@) =~= all.take(i as int),
        decreases project.sequences@.len() - i,
    {
        assert(sequence_sane(project.sequences@[i as int]));
        push_view(
            &mut out,
            sequence_report(&project.sequences[i], project.active_sequence.as_str()),
        );
        i = i + 1;
    }
    assert(views(out@) =~= all);
    array(out)
}

fn asset_reports(assets: &Vec<Asset>) -> (r: Json)
    ensures
        r@ == JsonView::Array(assets_json(assets@)),
{
    let mut out: Vec<Json> = Vec::new();
    let mut i: usize = 0;
    while i < assets.len()
        invariant
            i <= assets@.len(),
            views(out@) =~= assets_json(assets@).take(i as int),
        decreases assets@.len() - i,
    {
        push_view(&mut out, asset_report(&assets[i]));
        i = i + 1;
    }
    assert(views(out@) =~= assets_json(assets@));
    array(out)
}

/// Tells what a project holds. `tools` is what is known of the local tools, or nothing where
/// there are none: the document is described all the same.
pub fn overview(
    project: &Project,
    place: &Place,
    entries: &Vec<JournalEntry>,
    tools: Option<Json>,
) -> (r: Json)
    requires
        forall|s: int|
            0 <= s < project.sequences@.len() ==> sequence_sane(#[trigger] project.sequences@[s]),
    ensures
        r@ == overview_json(
            *project,
            *place,
            entries@,
            match tools {
                Some(tools) => tools@,
                None => JsonView::Null,
            },
        ),
{
    let known = match tools {
        Some(tools) => tools,
        None => null(),
    };
    let ghost known_view = known@;
    let mut history: Vec<JsonField> = Vec::new();
    push_field(&mut history, "entries", counted(entries.len() as u128));
    push_field(&mut history, "last", latest_entries(entries));
    assert(views(history@) =~= journal_json(entries@)->Object_0);
    let mut fields: Vec<JsonField> = Vec::new();
    push_field(&mut fields, "project", project_report(project, place));
    push_field(&mut fields, "sequences", sequence_reports(project));
    push_field(&mut fields, "assets", asset_reports(&project.assets));
    push_field(&mut fields, "history", object(history));
    push_field(&mut fields, "tools", known);
    assert(views(fields@) =~= overview_json(*project, *place, entries@, known_view)->Object_0);
    object(fields)
}

// ---------------------------------------------------------------------------
// History
// ---------------------------------------------------------------------------

pub open spec fn entry_json(entry: JournalEntry, undoable: Option<u64>) -> JsonView {
    JsonView::Object(
        seq![
            field("seq"@, count_json(entry.seq as nat)),
            field("ts"@, JsonView::Text(entry.ts@)),
            field("actor"@, JsonView::Text(entry.actor@)),
            field("op"@, JsonView::Text(entry.op@)),
            field("args"@, entry.args@),
            field("target"@, entry.target@),
            field("undoable"@, JsonView::Bool(undoable == Some(entry.seq))),
        ],
    )
}

/// Where the last `limit` entries start.
pub open spec fn tail_start(total: int, limit: int) -> int {
    if limit < total {
        total - limit
    } else {
        0
    }
}

pub open spec fn tail_json(entries: Seq<JournalEntry>, limit: int, undoable: Option<u64>) -> Seq<
    JsonView,
> {
    entries.skip(tail_start(entries.len() as int, limit)).map_values(
        |entry: JournalEntry| entry_json(entry, undoable),
    )
}

pub open spec fn history_json(entries: Seq<JournalEntry>, limit: int, undoable: Option<u64>) -> JsonView {
    JsonView::Object(
        seq![
            field("entries"@, JsonView::Array(tail_json(entries, limit, undoable))),
            field("total"@, count_json(entries.len())),
            field(
                "undoable"@,
                match undoable {
                    Some(seq) => count_json(seq as nat),
                    None => JsonView::Null,
                },
            ),
        ],
    )
}

fn entry_report(entry: JournalEntry, undoable: Option<u64>) -> (r: Json)
    ensures
        r@ == entry_json(entry, undoable),
{
    let ghost whole = entry;
    let next = match undoable {
        Some(seq) => seq == entry.seq,
        None => false,
    };
    let JournalEntry { seq, ts, actor, op, args, target } = entry;
    let mut fields: Vec<JsonField> = Vec::new();
    push_field(&mut fields, "seq", counted(seq as u128));
    push_text_field(&mut fields, "ts", ts.as_str());
    push_text_field(&mut fields, "actor", actor.as_str());
    push_text_field(&mut fields, "op", op.as_str());
    push_field(&mut fields, "args", args);
    push_field(&mut fields, "target", target);
    push_field(&mut fields, "undoable", boolean(next));
    assert(views(fields@) =~= entry_json(whole, undoable)->Object_0);
    object(fields)
}

/// The end of the journal, oldest first, with the entry that an undo would reverse marked.
pub fn history(entries: Vec<JournalEntry>, limit: usize, undoable: Option<u64>) -> (r: Json)
    ensures
        r@ == history_json(entries@, limit as int, undoable),
{
    let ghost all = entries@;
    let total: usize = entries.len();
    let start: usize = if limit < total {
        total - limit
    } else {
        0
    };
    let mut rest = entries;
    let ghost mut dropped: int = 0;
    assert(all.skip(0) =~= all);
    while rest.len() > total - start
        invariant
            total == all.len(),
            start <= total,
            0 <= dropped <= start,
            rest@ == all.skip(dropped),
            rest@.len() == total - dropped,
        ensures
            rest@ == all.skip(start as int),
        decreases rest@.len(),
    {
        rest.remove(0);
        proof {
            dropped = dropped + 1;
            assert(rest@ =~= all.skip(dropped));
        }
    }
    let ghost tail = all.skip(start as int);
    let ghost wanted = tail_json(all, limit as int, undoable);
    let mut out: Vec<Json> = Vec::new();
    let ghost mut done: int = 0;
    assert(tail.skip(0) =~= tail);
    while rest.len() > 0
        invariant
            0 <= done <= tail.len(),
            rest@ == tail.skip(done),
            wanted == tail.map_values(|entry: JournalEntry| entry_json(entry, undoable)),
            views(out@) =~= wanted.take(done),
        decreases rest@.len(),
    {
        let entry = rest.remove(0);
        proof {
            assert(entry == tail[done]);
            assert(rest@ =~= tail.skip(done + 1));
        }
        push_view(&mut out, entry_report(entry, undoable));
        proof {
            done = done + 1;
        }
    }
    assert(views(out@) =~= wanted);
    let mut fields: Vec<JsonField> = Vec::new();
    push_field(&mut fields, "entries", array(out));
    push_field(&mut fields, "total", counted(total as u128));
    push_field(
        &mut fields,
        "undoable",
        match undoable {
            Some(seq) => counted(seq as u128),
            None => null(),
        },
    );
    assert(views(fields@) =~= history_json(all, limit as int, undoable)->Object_0);
    object(fields)
}

// ---------------------------------------------------------------------------
// Findings
// ---------------------------------------------------------------------------

/// A measured number, to the millionth.
pub open spec fn measured_json(value: Rat) -> JsonView {
    JsonView::Number(number_text(round_half_away(value.num * 1_000_000, value.den as int)))
}

pub fn measured(value: Rat) -> (r: Json)
    requires
        value.wf(),
    ensures
        r@ == measured_json(value),
{
    proof {
        crate::rational::lemma_wide(value.num as int, 1_000_000);
    }
    number(
        crate::number::number(
            rounded((value.num as i128) * 1_000_000, value.den as i128),
        ).as_str(),
    )
}

pub open spec fn optional(name: Seq<char>, value: Option<Rat>) -> Seq<FieldView> {
    match value {
        Some(value) => seq![field(name, measured_json(value))],
        None => seq![],
    }
}

pub open spec fn finding_json(finding: FindingView) -> JsonView {
    JsonView::Object(
        seq![
            field("rule"@, JsonView::Text(finding.rule)),
            field("severity"@, JsonView::Text(finding.severity.text())),
            field("target"@, JsonView::Text(finding.target)),
            field("detail"@, JsonView::Text(finding.detail)),
        ] + optional("value"@, finding.value) + optional("required"@, finding.required),
    )
}

/// Whether what was measured is a number.
pub open spec fn numbers_ok(findings: Seq<Finding>) -> bool {
    forall|i: int|
        0 <= i < findings.len() ==> number_ok((#[trigger] findings[i]).value) && number_ok(
            findings[i].required,
        )
}

pub open spec fn number_ok(value: Option<Rat>) -> bool {
    value is Some ==> value->0.wf()
}

fn push_optional(fields: &mut Vec<JsonField>, name: &str, value: Option<Rat>)
    requires
        number_ok(value),
    ensures
        views(final(fields)@) == views(old(fields)@) + optional(name@, value),
{
    if let Some(value) = value {
        push_field(fields, name, measured(value));
    }
    assert(views(fields@) =~= views(old(fields)@) + optional(name@, value));
}

fn finding_report(finding: &Finding) -> (r: Json)
    requires
        number_ok(finding.value),
        number_ok(finding.required),
    ensures
        r@ == finding_json(finding@),
{
    let mut fields: Vec<JsonField> = Vec::new();
    push_text_field(&mut fields, "rule", finding.rule);
    push_text_field(&mut fields, "severity", finding.severity.name());
    push_text_field(&mut fields, "target", finding.target.as_str());
    push_text_field(&mut fields, "detail", finding.detail.as_str());
    push_optional(&mut fields, "value", finding.value);
    push_optional(&mut fields, "required", finding.required);
    assert(views(fields@) =~= finding_json(finding@)->Object_0);
    object(fields)
}

pub open spec fn findings_json(findings: Seq<FindingView>) -> Seq<JsonView> {
    findings.map_values(|finding: FindingView| finding_json(finding))
}

pub open spec fn counts_json(findings: Seq<FindingView>) -> JsonView {
    let (errors, warnings, infos) = counts_of(findings);
    JsonView::Object(
        seq![
            field("error"@, count_json(errors as nat)),
            field("warning"@, count_json(warnings as nat)),
            field("info"@, count_json(infos as nat)),
            field("total"@, count_json(findings.len())),
        ],
    )
}

pub open spec fn worst_json(findings: Seq<FindingView>) -> JsonView {
    match worst_of(findings) {
        Some(severity) => JsonView::Text(severity.text()),
        None => JsonView::Null,
    }
}

/// Findings with the counts that a caller branches on.
pub open spec fn lint_report(findings: Seq<FindingView>, profile: Seq<char>) -> JsonView {
    JsonView::Object(
        seq![
            field("profile"@, JsonView::Text(profile)),
            field("findings"@, JsonView::Array(findings_json(findings))),
            field("counts"@, counts_json(findings)),
            field("worst"@, worst_json(findings)),
        ],
    )
}

fn worst(findings: &Vec<Finding>) -> (r: Option<Severity>)
    ensures
        r == worst_of(views(findings@)),
{
    let ghost all = views(findings@);
    let mut out: Option<Severity> = None;
    let mut i: usize = 0;
    assert(all.take(0) =~= seq![]);
    while i < findings.len()
        invariant
            i <= findings@.len(),
            all == views(findings@),
            out == worst_of(all.take(i as int)),
        decreases findings@.len() - i,
    {
        assert(all.take(i + 1).drop_last() =~= all.take(i as int));
        assert(all.take(i + 1).last() == findings@[i as int]@);
        let here = findings[i].severity;
        out = match out {
            None => Some(here),
            Some(Severity::Info) => Some(here),
            Some(Severity::Warning) => match here {
                Severity::Error => Some(here),
                _ => Some(Severity::Warning),
            },
            Some(Severity::Error) => Some(Severity::Error),
        };
        i = i + 1;
    }
    assert(all.take(i as int) =~= all);
    out
}

/// Findings, each as a document.
pub fn finding_items(findings: &Vec<Finding>) -> (r: Vec<Json>)
    requires
        numbers_ok(findings@),
    ensures
        views(r@) == findings_json(views(findings@)),
{
    let ghost all = views(findings@);
    let mut items: Vec<Json> = Vec::new();
    let mut i: usize = 0;
    while i < findings.len()
        invariant
            i <= findings@.len(),
            all == views(findings@),
            numbers_ok(findings@),
            views(items@) =~= findings_json(all).take(i as int),
        decreases findings@.len() - i,
    {
        assert(number_ok(findings@[i as int].value));
        push_view(&mut items, finding_report(&findings[i]));
        i = i + 1;
    }
    assert(views(items@) =~= findings_json(all));
    items
}

/// Findings as a document, with the counts that a caller branches on.
pub fn lint_json(findings: &Vec<Finding>, profile: &str) -> (r: Json)
    requires
        numbers_ok(findings@),
    ensures
        r@ == lint_report(views(findings@), profile@),
{
    let ghost all = views(findings@);
    let items = finding_items(findings);
    let (errors, warnings, infos) = count_findings(findings);
    let mut counts: Vec<JsonField> = Vec::new();
    push_field(&mut counts, "error", counted(errors as u128));
    push_field(&mut counts, "warning", counted(warnings as u128));
    push_field(&mut counts, "info", counted(infos as u128));
    push_field(&mut counts, "total", counted(findings.len() as u128));
    assert(views(counts@) =~= counts_json(all)->Object_0);
    let mut fields: Vec<JsonField> = Vec::new();
    push_text_field(&mut fields, "profile", profile);
    push_field(&mut fields, "findings", array(items));
    push_field(&mut fields, "counts", object(counts));
    push_field(
        &mut fields,
        "worst",
        match worst(findings) {
            Some(severity) => text(severity.name()),
            None => null(),
        },
    );
    assert(views(fields@) =~= lint_report(all, profile@)->Object_0);
    object(fields)
}

// ---------------------------------------------------------------------------
// Frames
// ---------------------------------------------------------------------------

pub open spec fn before_the_start(at: Time) -> ErrorView {
    ErrorView::BadArgs(at.text() + " is before the start of the timeline"@)
}

/// The frame at an instant of the timeline.
pub fn frame_index(at: Time, fps: Fps) -> (r: Result<i64, Error>)
    requires
        at.wf(),
        fps.wf(),
        at.floor_frame(fps) <= i64::MAX,
    ensures
        r is Err <==> at.floor_frame(fps) < 0,
        r is Err ==> r->Err_0@ == before_the_start(at),
        r is Ok ==> r->Ok_0 == at.floor_frame(fps),
{
    match at.checked_frame_floor(fps) {
        Some(index) => {
            if index >= 0 {
                return Ok(index);
            }
        },
        None => {},
    }
    let mut detail = at.to_text();
    detail.append(" is before the start of the timeline");
    Err(Error::BadArgs(detail))
}

pub open spec fn frame_name(sequence: Seq<char>, index: int) -> Seq<char> {
    sequence + "-"@ + dec_int(index) + ".png"@
}

/// Where a frame goes that nobody named a place for: one file for each frame of a sequence.
pub fn cached_frame_path(cache: &str, sequence: &str, index: i64) -> (r: String)
    ensures
        r@ == join_path(join_path(cache@, "frame"@), frame_name(sequence@, index as int)),
{
    let mut name = sequence.to_owned();
    name.append("-");
    push_int(&mut name, index as i128);
    name.append(".png");
    joined_path(joined_path(cache, "frame").as_str(), name.as_str())
}

// ---------------------------------------------------------------------------
// Transcripts
// ---------------------------------------------------------------------------

/// A spoken word, with when it is spoken; confidence is in millionths.
#[derive(Debug)]
pub struct Word {
    pub text: String,
    pub start: Time,
    pub end: Time,
    pub confidence: i64,
}

/// What a transcript says of itself.
#[derive(Debug)]
pub struct TranscriptInfo {
    pub asset: String,
    pub language: String,
    pub model: String,
    pub words: usize,
}

pub open spec fn match_json(span: Span) -> JsonView {
    JsonView::Object(
        seq![
            field("start"@, JsonView::Text(span.start.text())),
            field("end"@, JsonView::Text(span.end.text())),
            field("clock"@, JsonView::Text(span.start.clock_text())),
        ],
    )
}

pub open spec fn word_json(word: Word) -> JsonView {
    JsonView::Object(
        seq![
            field("text"@, JsonView::Text(word.text@)),
            field("start"@, JsonView::Text(word.start.text())),
            field("end"@, JsonView::Text(word.end.text())),
            field("confidence"@, JsonView::Number(number_text(word.confidence as int))),
        ],
    )
}

pub open spec fn at_most(n: int, limit: int) -> int {
    if n < limit {
        n
    } else {
        limit
    }
}

pub open spec fn matches_json(found: Seq<Span>, limit: int) -> Seq<JsonView> {
    found.take(at_most(found.len() as int, limit)).map_values(|span: Span| match_json(span))
}

pub open spec fn words_json(words: Seq<Word>, limit: int) -> Seq<JsonView> {
    words.take(at_most(words.len() as int, limit)).map_values(|word: Word| word_json(word))
}

pub open spec fn word_texts(words: Seq<Word>) -> Seq<Seq<char>> {
    words.map_values(|word: Word| word.text@)
}

pub open spec fn head_fields(info: TranscriptInfo) -> Seq<FieldView> {
    seq![
        field("asset"@, JsonView::Text(info.asset@)),
        field("language"@, JsonView::Text(info.language@)),
        field("model"@, JsonView::Text(info.model@)),
        field("words"@, count_json(info.words as nat)),
    ]
}

pub open spec fn phrase_fields(phrase: Seq<char>, found: Seq<Span>, limit: int) -> Seq<FieldView> {
    seq![
        field("phrase"@, JsonView::Text(phrase)),
        field("matches"@, JsonView::Array(matches_json(found, limit))),
    ]
}

pub open spec fn span_fields(span: Span, words: Seq<Word>, limit: int) -> Seq<FieldView> {
    seq![
        field(
            "span"@,
            JsonView::Object(
                seq![
                    field("start"@, JsonView::Text(span.start.text())),
                    field("end"@, JsonView::Text(span.end.text())),
                ],
            ),
        ),
        field("text"@, JsonView::Text(crate::text::join(word_texts(words), " "@))),
        field("inSpan"@, JsonView::Array(words_json(words, limit))),
    ]
}

/// What a question to a transcript is answered: where a phrase was found, and which words lie
/// in a stretch.
pub open spec fn transcript_json(
    info: TranscriptInfo,
    phrase: Option<(Seq<char>, Seq<Span>)>,
    span: Option<(Span, Seq<Word>)>,
    limit: int,
) -> JsonView {
    JsonView::Object(
        head_fields(info) + (match phrase {
            Some((phrase, found)) => phrase_fields(phrase, found, limit),
            None => seq![],
        }) + (match span {
            Some((span, words)) => span_fields(span, words, limit),
            None => seq![],
        }),
    )
}

fn match_report(span: Span) -> (r: Json)
    requires
        span.wf(),
    ensures
        r@ == match_json(span),
{
    let mut fields: Vec<JsonField> = Vec::new();
    push_text_field(&mut fields, "start", span.start.to_text().as_str());
    push_text_field(&mut fields, "end", span.end.to_text().as_str());
    push_text_field(&mut fields, "clock", span.start.clock().as_str());
    assert(views(fields@) =~= match_json(span)->Object_0);
    object(fields)
}

fn word_report(word: &Word) -> (r: Json)
    ensures
        r@ == word_json(*word),
{
    let mut fields: Vec<JsonField> = Vec::new();
    push_text_field(&mut fields, "text", word.text.as_str());
    push_text_field(&mut fields, "start", word.start.to_text().as_str());
    push_text_field(&mut fields, "end", word.end.to_text().as_str());
    push_field(
        &mut fields,
        "confidence",
        number(crate::number::number(word.confidence as i128).as_str()),
    );
    assert(views(fields@) =~= word_json(*word)->Object_0);
    object(fields)
}

fn push_phrase(fields: &mut Vec<JsonField>, phrase: &str, found: &Vec<Span>, limit: usize)
    requires
        crate::coverage::spans_wf(found@),
    ensures
        views(final(fields)@) == views(old(fields)@) + phrase_fields(phrase@, found@, limit as int),
{
    let ghost before = views(fields@);
    let ghost all = matches_json(found@, limit as int);
    let mut items: Vec<Json> = Vec::new();
    let mut i: usize = 0;
    while i < found.len() && i < limit
        invariant
            i <= found@.len(),
            i <= limit,
            crate::coverage::spans_wf(found@),
            all == matches_json(found@, limit as int),
            views(items@) =~= all.take(i as int),
        decreases found@.len() - i,
    {
        assert(found@[i as int].wf());
        push_view(&mut items, match_report(found[i]));
        i = i + 1;
    }
    assert(views(items@) =~= all);
    push_text_field(fields, "phrase", phrase);
    push_field(fields, "matches", array(items));
    assert(views(fields@) =~= before + phrase_fields(phrase@, found@, limit as int));
}

fn push_words(fields: &mut Vec<JsonField>, span: Span, words: &Vec<Word>, limit: usize)
    ensures
        views(final(fields)@) == views(old(fields)@) + span_fields(span, words@, limit as int),
{
    let ghost before = views(fields@);
    let ghost all = words_json(words@, limit as int);
    let mut items: Vec<Json> = Vec::new();
    let mut i: usize = 0;
    while i < words.len() && i < limit
        invariant
            i <= words@.len(),
            i <= limit,
            all == words_json(words@, limit as int),
            views(items@) =~= all.take(i as int),
        decreases words@.len() - i,
    {
        push_view(&mut items, word_report(&words[i]));
        i = i + 1;
    }
    assert(views(items@) =~= all);
    let mut texts: Vec<String> = Vec::new();
    let mut i: usize = 0;
    while i < words.len()
        invariant
            i <= words@.len(),
            crate::text::strings(texts@) =~= word_texts(words@).take(i as int),
        decreases words@.len() - i,
    {
        crate::text::push_text(&mut texts, words[i].text.as_str());
        i = i + 1;
    }
    assert(crate::text::strings(texts@) =~= word_texts(words@));
    let mut edges: Vec<JsonField> = Vec::new();
    push_text_field(&mut edges, "start", span.start.to_text().as_str());
    push_text_field(&mut edges, "end", span.end.to_text().as_str());
    assert(views(edges@) =~= seq![
        field("start"@, JsonView::Text(span.start.text())),
        field("end"@, JsonView::Text(span.end.text())),
    ]);
    push_field(fields, "span", object(edges));
    push_text_field(fields, "text", crate::text::joined(&texts, " ").as_str());
    push_field(fields, "inSpan", array(items));
    assert(views(fields@) =~= before + span_fields(span, words@, limit as int));
}

/// Answers a question to a transcript.
pub fn transcript_query(
    info: &TranscriptInfo,
    phrase: Option<(&str, &Vec<Span>)>,
    span: Option<(Span, &Vec<Word>)>,
    limit: usize,
) -> (r: Json)
    requires
        phrase matches Some((_, found)) ==> crate::coverage::spans_wf(found@),
    ensures
        r@ == transcript_json(
            *info,
            match phrase {
                Some((phrase, found)) => Some((phrase@, found@)),
                None => None,
            },
            match span {
                Some((span, words)) => Some((span, words@)),
                None => None,
            },
            limit as int,
        ),
{
    let mut fields: Vec<JsonField> = Vec::new();
    push_text_field(&mut fields, "asset", info.asset.as_str());
    push_text_field(&mut fields, "language", info.language.as_str());
    push_text_field(&mut fields, "model", info.model.as_str());
    push_field(&mut fields, "words", counted(info.words as u128));
    assert(views(fields@) =~= head_fields(*info));
    let ghost head = views(fields@);
    let ghost middle = match phrase {
        Some((phrase, found)) => phrase_fields(phrase@, found@, limit as int),
        None => seq![],
    };
    match phrase {
        Some((phrase, found)) => push_phrase(&mut fields, phrase, found, limit),
        None => {
            assert(head + Seq::<FieldView>::empty() =~= head);
        },
    }
    assert(views(fields@) == head + middle);
    match span {
        Some((span, words)) => push_words(&mut fields, span, words, limit),
        None => {
            assert(head + middle + Seq::<FieldView>::empty() =~= head + middle);
        },
    }
    object(fields)
}

} // verus!
