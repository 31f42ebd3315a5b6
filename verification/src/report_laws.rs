//! What reports say of what they are made from.

use crate::finding::{any_error, counts_of, worst_of, FindingView, LoudnessProfile, Severity};
use crate::inspect_ops::{
    cut_json, cuts_json, lint_answer, loudness_answer, names_json, raised, scenes_answer,
    silence_answer, stretch_json, stretches_json,
};
use crate::json::JsonView;
use crate::lint::LintOptions;
use crate::inspect_ops::Loudness;
use crate::grid_laws::nearest_frame;
use crate::number::number_text;
use crate::otio_parts::has;
use crate::project::{Project, Sequence, Track, TrackKind};
use crate::rational::Rat;
use crate::report::{
    asset_json, assets_json, brief_json, entry_json, finding_json, findings_json, history_json,
    latest, lint_report, match_json, matches_json, measured_json, overview_json, project_json,
    sequence_json, sequences_json, tail_json, track_json, tracks_json, transcript_json, word_json,
    words_json, JournalEntry, Place, TranscriptInfo, Word,
};
use crate::text::{dec, dec_int};
use crate::time::{Fps, Span, Time};
use crate::time_laws::{
    is_nearest, law_frames_stand_around_an_instant, law_rounding_gives_the_nearest,
};
use vstd::prelude::*;

verus! {

proof fn lemma_has(json: JsonView, k: int)
    requires
        json is Object,
        0 <= k < json->Object_0.len(),
    ensures
        has(json, json->Object_0[k].name, json->Object_0[k].value),
{
}

/// Whether a member of that name is a whole number.
pub open spec fn states(json: JsonView, name: Seq<char>, n: int) -> bool {
    has(json, name, JsonView::Number(dec_int(n)))
}

/// Whether a member of that name is a text.
pub open spec fn names(json: JsonView, name: Seq<char>, text: Seq<char>) -> bool {
    has(json, name, JsonView::Text(text))
}

// ---------------------------------------------------------------------------
// Findings
// ---------------------------------------------------------------------------

/// Every finding is counted once, under its severity.
pub proof fn law_a_finding_is_counted_once(findings: Seq<FindingView>, finding: FindingView)
    ensures
        ({
            let (e, w, i) = counts_of(findings);
            let (f, x, j) = counts_of(findings.push(finding));
            &&& f == e + if finding.severity == Severity::Error { 1int } else { 0 }
            &&& x == w + if finding.severity == Severity::Warning { 1int } else { 0 }
            &&& j == i + if finding.severity == Severity::Info { 1int } else { 0 }
        }),
        counts_of(Seq::<FindingView>::empty()) == (0int, 0int, 0int),
{
    assert(findings.push(finding).drop_last() =~= findings);
}

/// The counts add up to all findings, and there is an error exactly if one is counted.
pub proof fn law_the_counts_add_up(findings: Seq<FindingView>)
    ensures
        ({
            let (e, w, i) = counts_of(findings);
            &&& e >= 0 && w >= 0 && i >= 0
            &&& e + w + i == findings.len()
            &&& e > 0 <==> any_error(findings)
        }),
    decreases findings.len(),
{
    if findings.len() > 0 {
        let rest = findings.drop_last();
        law_the_counts_add_up(rest);
        let n = findings.len() - 1;
        assert(findings.last() == findings[n]);
        if any_error(rest) {
            let k = choose|k: int|
                0 <= k < rest.len() && (#[trigger] rest[k]).severity == Severity::Error;
            assert(findings[k] == rest[k]);
        }
        if any_error(findings) && findings.last().severity != Severity::Error {
            let k = choose|k: int|
                0 <= k < findings.len() && (#[trigger] findings[k]).severity == Severity::Error;
            assert(rest[k] == findings[k]);
        }
    }
}

/// No finding is more severe than the worst, which is the severity of one of them: an error is worse
/// than a warning, and that than a note.
pub proof fn law_nothing_is_worse_than_the_worst(findings: Seq<FindingView>, i: int)
    requires
        0 <= i < findings.len(),
    ensures
        worst_of(findings) is Some,
        findings[i].severity == Severity::Error ==> worst_of(findings) == Some(Severity::Error),
        findings[i].severity == Severity::Warning ==> worst_of(findings) != Some(Severity::Info),
        exists|k: int|
            0 <= k < findings.len() && Some((#[trigger] findings[k]).severity) == worst_of(
                findings,
            ),
    decreases findings.len(),
{
    let rest = findings.drop_last();
    let n = findings.len() - 1;
    assert(findings.last() == findings[n]);
    if rest.len() > 0 {
        law_nothing_is_worse_than_the_worst(
            rest,
            if i < n {
                i
            } else {
                0
            },
        );
        let k = choose|k: int|
            0 <= k < rest.len() && Some((#[trigger] rest[k]).severity) == worst_of(rest);
        assert(findings[k] == rest[k]);
        if i < n {
            assert(rest[i] == findings[i]);
        }
    }
}

/// A finding is told with its rule, its severity, what it is about, and what was measured.
pub proof fn law_a_finding_is_told_in_full(finding: FindingView)
    ensures
        ({
            let json = finding_json(finding);
            &&& names(json, "rule"@, finding.rule)
            &&& names(json, "severity"@, finding.severity.text())
            &&& names(json, "target"@, finding.target)
            &&& names(json, "detail"@, finding.detail)
            &&& finding.value matches Some(value) ==> has(json, "value"@, measured_json(value))
            &&& finding.required matches Some(value) ==> has(
                json,
                "required"@,
                measured_json(value),
            )
        }),
        Severity::Error.text() == "error"@,
        Severity::Warning.text() == "warning"@,
        Severity::Info.text() == "info"@,
{
    let json = finding_json(finding);
    lemma_has(json, 0);
    lemma_has(json, 1);
    lemma_has(json, 2);
    lemma_has(json, 3);
    if finding.value is Some {
        lemma_has(json, 4);
        if finding.required is Some {
            lemma_has(json, 5);
        }
    } else if finding.required is Some {
        lemma_has(json, 4);
    }
}

/// A measured number is told to the nearest millionth.
pub proof fn law_measurements_are_told_to_the_millionth(value: Rat)
    requires
        value.den > 0,
    ensures
        exists|n: int|
            measured_json(value) == JsonView::Number(#[trigger] number_text(n)) && is_nearest(
                value.num * 1_000_000,
                value.den as int,
                n,
            ),
{
    law_rounding_gives_the_nearest(value.num * 1_000_000, value.den as int);
    let n = crate::rational::round_half_away(value.num * 1_000_000, value.den as int);
    assert(measured_json(value) == JsonView::Number(number_text(n)));
}

/// A report of a check tells every finding in its place, how many there are of each severity, and the
/// worst.
pub proof fn law_a_check_reports_every_finding(
    findings: Seq<FindingView>,
    profile: Seq<char>,
    i: int,
) -> (counts: JsonView)
    ensures
        ({
            let json = lint_report(findings, profile);
            let (e, w, n) = counts_of(findings);
            &&& names(json, "profile"@, profile)
            &&& has(json, "findings"@, JsonView::Array(findings_json(findings)))
            &&& findings_json(findings).len() == findings.len()
            &&& 0 <= i < findings.len() ==> findings_json(findings)[i] == finding_json(findings[i])
            &&& has(json, "counts"@, counts)
            &&& has(counts, "error"@, JsonView::Number(dec(e as nat)))
            &&& has(counts, "warning"@, JsonView::Number(dec(w as nat)))
            &&& has(counts, "info"@, JsonView::Number(dec(n as nat)))
            &&& has(counts, "total"@, JsonView::Number(dec(findings.len())))
        }),
{
    let json = lint_report(findings, profile);
    lemma_has(json, 0);
    lemma_has(json, 1);
    lemma_has(json, 2);
    let counts = json->Object_0[2].value;
    lemma_has(counts, 0);
    lemma_has(counts, 1);
    lemma_has(counts, 2);
    lemma_has(counts, 3);
    counts
}

/// A check answers with every finding and their counts, says whether frames were rendered, and names
/// what was skipped exactly if they were not.
pub proof fn law_a_check_says_what_it_skipped(findings: Seq<FindingView>, options: LintOptions) -> (counts:
    JsonView)
    ensures
        ({
            let json = lint_answer(findings, options);
            let (e, w, n) = counts_of(findings);
            &&& names(json, "profile"@, options.profile.spec_name())
            &&& has(json, "rendered"@, JsonView::Bool(options.render))
            &&& has(json, "findings"@, JsonView::Array(findings_json(findings)))
            &&& has(json, "counts"@, counts)
            &&& has(counts, "error"@, JsonView::Number(dec(e as nat)))
            &&& has(counts, "warning"@, JsonView::Number(dec(w as nat)))
            &&& has(counts, "info"@, JsonView::Number(dec(n as nat)))
            &&& options.render ==> has(json, "skipped"@, JsonView::Array(seq![]))
            &&& !options.render ==> has(
                json,
                "skipped"@,
                names_json(crate::finding::RENDER_RULES@),
            )
        }),
{
    let json = lint_answer(findings, options);
    lemma_has(json, 0);
    lemma_has(json, 1);
    lemma_has(json, 2);
    lemma_has(json, 3);
    lemma_has(json, 5);
    let counts = json->Object_0[3].value;
    lemma_has(counts, 0);
    lemma_has(counts, 1);
    lemma_has(counts, 2);
    if options.render {
        let none: Seq<&'static str> = seq![];
        assert(names_json(none)->Array_0 =~= seq![]);
    }
    counts
}

/// Every finding is raised as a warning of its rule, about what it is about.
pub proof fn law_every_finding_is_raised(findings: Seq<FindingView>, i: int)
    requires
        0 <= i < findings.len(),
    ensures
        raised(findings).len() == findings.len(),
        raised(findings)[i].code == findings[i].rule,
        raised(findings)[i].target == findings[i].target,
        raised(findings)[i].detail == findings[i].detail,
{
}

// ---------------------------------------------------------------------------
// Measurements
// ---------------------------------------------------------------------------

/// A shot change is told with its instant and the frame nearest to it, and all of them are counted.
pub proof fn law_every_shot_change_is_told(
    cuts: Seq<Time>,
    threshold: Rat,
    every: Time,
    fps: Fps,
    i: int,
) -> (frame: int)
    requires
        0 <= i < cuts.len(),
        cuts[i].wf(),
        fps.wf(),
    ensures
        ({
            let json = scenes_answer(cuts, threshold, every, fps);
            &&& has(json, "count"@, JsonView::Number(dec(cuts.len())))
            &&& has(json, "threshold"@, measured_json(threshold))
            &&& names(json, "sampleEvery"@, every.text())
            &&& has(json, "cuts"@, JsonView::Array(cuts_json(cuts, fps)))
            &&& cuts_json(cuts, fps).len() == cuts.len()
            &&& names(cuts_json(cuts, fps)[i], "at"@, cuts[i].text())
            &&& names(cuts_json(cuts, fps)[i], "timecode"@, cuts[i].timecode_text(fps))
            &&& states(cuts_json(cuts, fps)[i], "frame"@, frame)
            &&& nearest_frame(cuts[i], fps, frame)
        }),
{
    let json = scenes_answer(cuts, threshold, every, fps);
    lemma_has(json, 0);
    lemma_has(json, 1);
    lemma_has(json, 2);
    lemma_has(json, 3);
    let cut = cuts_json(cuts, fps)[i];
    assert(cut == cut_json(cuts[i], fps));
    lemma_has(cut, 0);
    lemma_has(cut, 1);
    lemma_has(cut, 2);
    law_frames_stand_around_an_instant(cuts[i], fps);
    cuts[i].round_frame(fps)
}

/// A silence is told from its start to its end with its length, and all of them are counted.
pub proof fn law_every_silence_is_answered(spans: Seq<Span>, level: Rat, least: Time, i: int)
    requires
        0 <= i < spans.len(),
    ensures
        ({
            let json = silence_answer(spans, level, least);
            &&& has(json, "count"@, JsonView::Number(dec(spans.len())))
            &&& has(json, "thresholdDb"@, measured_json(level))
            &&& names(json, "minDuration"@, least.text())
            &&& has(json, "silences"@, JsonView::Array(stretches_json(spans)))
            &&& stretches_json(spans).len() == spans.len()
            &&& names(stretches_json(spans)[i], "start"@, spans[i].start.text())
            &&& names(stretches_json(spans)[i], "end"@, spans[i].end.text())
            &&& has(
                stretches_json(spans)[i],
                "duration"@,
                measured_json(spans[i].end.spec_minus(spans[i].start).secs),
            )
        }),
{
    let json = silence_answer(spans, level, least);
    lemma_has(json, 0);
    lemma_has(json, 1);
    lemma_has(json, 2);
    lemma_has(json, 3);
    let one = stretches_json(spans)[i];
    assert(one == stretch_json(spans[i]));
    lemma_has(one, 0);
    lemma_has(one, 1);
    lemma_has(one, 2);
}

/// A measurement of the mix is answered as it was measured, beside the target of the profile.
pub proof fn law_a_mix_is_answered_as_measured(mix: Loudness, target: LoudnessProfile)
    ensures
        ({
            let json = loudness_answer(mix, target);
            &&& names(json, "profile"@, target.spec_name())
            &&& target == LoudnessProfile::YouTube ==> states(json, "targetLufs"@, -14)
            &&& target == LoudnessProfile::Podcast ==> states(json, "targetLufs"@, -16)
            &&& target == LoudnessProfile::Broadcast ==> states(json, "targetLufs"@, -23)
            &&& states(json, "truePeakCeilingDb"@, -1)
            &&& has(json, "gainDb"@, JsonView::Number(number_text(mix.gain as int)))
            &&& has(json, "rate"@, JsonView::Number(dec(mix.rate as nat)))
            &&& has(json, "channels"@, JsonView::Number(dec(mix.channels as nat)))
            &&& has(json, "integratedLufs"@, JsonView::Number(number_text(mix.integrated as int)))
            &&& has(json, "truePeakDb"@, JsonView::Number(number_text(mix.true_peak as int)))
            &&& has(json, "lra"@, JsonView::Number(number_text(mix.range as int)))
            &&& has(
                json,
                "shortTermMinLufs"@,
                JsonView::Number(number_text(mix.short_term_min as int)),
            )
            &&& has(json, "clippedSamples"@, JsonView::Number(dec(mix.clipped as nat)))
        }),
{
    let json = loudness_answer(mix, target);
    lemma_has(json, 0);
    lemma_has(json, 1);
    lemma_has(json, 2);
    lemma_has(json, 3);
    lemma_has(json, 4);
    lemma_has(json, 5);
    lemma_has(json, 6);
    lemma_has(json, 7);
    lemma_has(json, 8);
    lemma_has(json, 9);
    lemma_has(json, 10);
}

// ---------------------------------------------------------------------------
// The project
// ---------------------------------------------------------------------------

/// A track is reported with its kind, how much is on it, its state, and where its last clip ends.
pub proof fn law_a_track_is_reported(track: Track)
    ensures
        ({
            let json = track_json(track);
            &&& names(json, "id"@, track.id@)
            &&& names(json, "name"@, track.name@)
            &&& track.kind == TrackKind::Video ==> names(json, "kind"@, "video"@)
            &&& track.kind == TrackKind::Audio ==> names(json, "kind"@, "audio"@)
            &&& track.kind == TrackKind::Caption ==> names(json, "kind"@, "caption"@)
            &&& has(json, "clips"@, JsonView::Number(dec(track.clips@.len())))
            &&& has(json, "cues"@, JsonView::Number(dec(track.cues@.len())))
            &&& has(json, "muted"@, JsonView::Bool(track.muted))
            &&& has(json, "locked"@, JsonView::Bool(track.locked))
            &&& track.clips@.len() > 0 ==> names(
                json,
                "duration"@,
                track.clips@.last().start.spec_plus(track.clips@.last().duration).text(),
            )
            &&& track.clips@.len() == 0 ==> has(json, "duration"@, JsonView::Null)
        }),
{
    let json = track_json(track);
    lemma_has(json, 0);
    lemma_has(json, 1);
    lemma_has(json, 2);
    lemma_has(json, 3);
    lemma_has(json, 4);
    lemma_has(json, 5);
    lemma_has(json, 6);
    lemma_has(json, 7);
}

/// A sequence is reported with its size, its rates, its length in frames, every track in its place, and
/// whether it is the active one.
pub proof fn law_a_sequence_is_reported(sequence: Sequence, active: Seq<char>, t: int)
    ensures
        ({
            let json = sequence_json(sequence, active);
            &&& names(json, "id"@, sequence.id@)
            &&& names(json, "name"@, sequence.name@)
            &&& names(json, "fps"@, sequence.fps.text())
            &&& has(
                json,
                "size"@,
                JsonView::Array(
                    seq![
                        JsonView::Number(dec(sequence.size@[0] as nat)),
                        JsonView::Number(dec(sequence.size@[1] as nat)),
                    ],
                ),
            )
            &&& has(json, "sampleRate"@, JsonView::Number(dec(sequence.sample_rate as nat)))
            &&& has(json, "markers"@, JsonView::Number(dec(sequence.markers@.len())))
            &&& has(json, "tracks"@, JsonView::Array(tracks_json(sequence.tracks@)))
            &&& tracks_json(sequence.tracks@).len() == sequence.tracks@.len()
            &&& 0 <= t < sequence.tracks@.len() ==> tracks_json(sequence.tracks@)[t] == track_json(
                sequence.tracks@[t],
            )
            &&& has(json, "active"@, JsonView::Bool(sequence.id@ == active))
        }),
{
    let json = sequence_json(sequence, active);
    lemma_has(json, 0);
    lemma_has(json, 1);
    lemma_has(json, 2);
    lemma_has(json, 3);
    lemma_has(json, 4);
    lemma_has(json, 8);
    lemma_has(json, 9);
    lemma_has(json, 10);
}

/// A project is reported with every sequence and every asset in its place.
pub proof fn law_a_project_is_reported(
    project: Project,
    place: Place,
    entries: Seq<JournalEntry>,
    tools: JsonView,
    s: int,
    a: int,
)
    ensures
        ({
            let json = overview_json(project, place, entries, tools);
            let sequences = sequences_json(project.sequences@, project.active_sequence@);
            &&& has(json, "project"@, project_json(project, place))
            &&& names(project_json(project, place), "id"@, project.id@)
            &&& names(project_json(project, place), "name"@, project.name@)
            &&& names(project_json(project, place), "root"@, place.root@)
            &&& names(project_json(project, place), "activeSequence"@, project.active_sequence@)
            &&& names(project_json(project, place), "modified"@, place.modified@)
            &&& has(json, "sequences"@, JsonView::Array(sequences))
            &&& sequences.len() == project.sequences@.len()
            &&& 0 <= s < sequences.len() ==> sequences[s] == sequence_json(
                project.sequences@[s],
                project.active_sequence@,
            )
            &&& has(json, "assets"@, JsonView::Array(assets_json(project.assets@)))
            &&& assets_json(project.assets@).len() == project.assets@.len()
            &&& 0 <= a < project.assets@.len() ==> assets_json(project.assets@)[a] == asset_json(
                project.assets@[a],
            )
            &&& has(json, "tools"@, tools)
        }),
{
    let json = overview_json(project, place, entries, tools);
    lemma_has(json, 0);
    lemma_has(json, 1);
    lemma_has(json, 2);
    lemma_has(json, 4);
    let own = project_json(project, place);
    lemma_has(own, 0);
    lemma_has(own, 1);
    lemma_has(own, 3);
    lemma_has(own, 4);
    lemma_has(own, 5);
}

// ---------------------------------------------------------------------------
// The journal
// ---------------------------------------------------------------------------

/// The latest entries come newest first: the one at a place is as far from the end of the journal.
pub proof fn law_the_newest_entry_comes_first(entries: Seq<JournalEntry>, n: int, k: int)
    requires
        n >= 0,
    ensures
        latest(entries, n).len() == if entries.len() < n {
            entries.len() as int
        } else {
            n
        },
        0 <= k < latest(entries, n).len() ==> latest(entries, n)[k] == brief_json(
            entries[entries.len() - 1 - k],
        ),
    decreases n,
{
    if n > 0 && entries.len() > 0 {
        let rest = entries.drop_last();
        law_the_newest_entry_comes_first(rest, n - 1, k - 1);
        if 0 < k < latest(entries, n).len() {
            assert(latest(entries, n)[k] == latest(rest, n - 1)[k - 1]);
            assert(rest[rest.len() - 1 - (k - 1)] == entries[entries.len() - 1 - k]);
        }
    }
}

/// A history ends with the last entry and holds as many as it may, oldest first; the one that an undo
/// would reverse is marked, and no other.
pub proof fn law_a_history_ends_with_the_last_entry(
    entries: Seq<JournalEntry>,
    limit: int,
    undoable: Option<u64>,
    k: int,
)
    requires
        limit >= 0,
    ensures
        ({
            let json = history_json(entries, limit, undoable);
            let told = tail_json(entries, limit, undoable);
            &&& has(json, "entries"@, JsonView::Array(told))
            &&& has(json, "total"@, JsonView::Number(dec(entries.len())))
            &&& told.len() == if entries.len() < limit {
                entries.len() as int
            } else {
                limit
            }
            &&& 0 <= k < told.len() ==> {
                let entry = entries[entries.len() - told.len() + k];
                &&& has(told[k], "seq"@, JsonView::Number(dec(entry.seq as nat)))
                &&& names(told[k], "op"@, entry.op@)
                &&& names(told[k], "actor"@, entry.actor@)
                &&& has(told[k], "undoable"@, JsonView::Bool(undoable == Some(entry.seq)))
            }
        }),
{
    let json = history_json(entries, limit, undoable);
    lemma_has(json, 0);
    lemma_has(json, 1);
    let told = tail_json(entries, limit, undoable);
    if 0 <= k < told.len() {
        let entry = entries[entries.len() - told.len() + k];
        assert(told[k] == entry_json(entry, undoable));
        lemma_has(told[k], 0);
        lemma_has(told[k], 2);
        lemma_has(told[k], 3);
        lemma_has(told[k], 6);
    }
}

// ---------------------------------------------------------------------------
// Transcripts
// ---------------------------------------------------------------------------

/// Where a phrase was found is told from its start to its end, as often as may be; so are words.
pub proof fn law_matches_are_told_up_to_the_limit(
    found: Seq<Span>,
    words: Seq<Word>,
    limit: int,
    k: int,
)
    requires
        limit >= 0,
    ensures
        matches_json(found, limit).len() == if found.len() < limit {
            found.len() as int
        } else {
            limit
        },
        words_json(words, limit).len() == if words.len() < limit {
            words.len() as int
        } else {
            limit
        },
        0 <= k < matches_json(found, limit).len() ==> {
            let json = matches_json(found, limit)[k];
            &&& names(json, "start"@, found[k].start.text())
            &&& names(json, "end"@, found[k].end.text())
            &&& names(json, "clock"@, found[k].start.clock_text())
        },
        0 <= k < words_json(words, limit).len() ==> {
            let json = words_json(words, limit)[k];
            &&& names(json, "text"@, words[k].text@)
            &&& names(json, "start"@, words[k].start.text())
            &&& names(json, "end"@, words[k].end.text())
            &&& has(
                json,
                "confidence"@,
                JsonView::Number(number_text(words[k].confidence as int)),
            )
        },
{
    if 0 <= k < matches_json(found, limit).len() {
        let json = matches_json(found, limit)[k];
        assert(json == match_json(found[k]));
        lemma_has(json, 0);
        lemma_has(json, 1);
        lemma_has(json, 2);
    }
    if 0 <= k < words_json(words, limit).len() {
        let json = words_json(words, limit)[k];
        assert(json == word_json(words[k]));
        lemma_has(json, 0);
        lemma_has(json, 1);
        lemma_has(json, 2);
        lemma_has(json, 3);
    }
}

/// An answer of a transcript tells which one it is, the phrase and the stretch exactly if they were
/// asked for.
pub proof fn law_a_transcript_answers_what_was_asked(
    info: TranscriptInfo,
    phrase: Option<(Seq<char>, Seq<Span>)>,
    span: Option<(Span, Seq<Word>)>,
    limit: int,
)
    ensures
        ({
            let json = transcript_json(info, phrase, span, limit);
            &&& names(json, "asset"@, info.asset@)
            &&& names(json, "language"@, info.language@)
            &&& names(json, "model"@, info.model@)
            &&& has(json, "words"@, JsonView::Number(dec(info.words as nat)))
            &&& phrase matches Some((said, found)) ==> names(json, "phrase"@, said) && has(
                json,
                "matches"@,
                JsonView::Array(matches_json(found, limit)),
            )
            &&& span matches Some((_, words)) ==> has(
                json,
                "inSpan"@,
                JsonView::Array(words_json(words, limit)),
            )
            &&& json->Object_0.len() == 4 + (if phrase is Some {
                2int
            } else {
                0
            }) + if span is Some {
                3int
            } else {
                0
            }
        }),
{
    let json = transcript_json(info, phrase, span, limit);
    lemma_has(json, 0);
    lemma_has(json, 1);
    lemma_has(json, 2);
    lemma_has(json, 3);
    let n: int = if phrase is Some {
        lemma_has(json, 4);
        lemma_has(json, 5);
        6
    } else {
        4
    };
    if span is Some {
        lemma_has(json, n + 2);
    }
}

} // verus!
