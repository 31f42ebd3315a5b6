//! What a finding measures, what an error says, and what is reported of a file that was made.

use crate::asset_import::{proxy_report, waveform_report};
use crate::error::ErrorView;
use crate::ident::{be_bytes, uuid_text};
use crate::json::JsonView;
use crate::lint_media::{black_finding, frozen_finding, silence_finding};
use crate::lint_source::{
    blow_up, letterboxed_finding, past_end_finding, slow_finding, upscaled_finding, Placement,
};
use crate::lint_timeline::{gap_finding, lonely_finding, long_finding, overlap_finding};
use crate::otio_parts::has;
use crate::project::{Clip, Sequence, Track, Transition};
use crate::proxy::ProxySpec;
use crate::rational::Rat;
use crate::report::{brief_json, journal_json, latest};
use crate::subtitle::{srt_text, vtt_text};
use crate::text::{dec, hex2, hex_run};
use crate::time::{Fps, Span, Time};
use crate::transfer::{caption_format, captions_file, wanted_cues, ImportPlan};
use crate::transfer_ops::imported_json;
use vstd::prelude::*;

verus! {

// ---------------------------------------------------------------------------
// Findings
// ---------------------------------------------------------------------------

/// What is found over a stretch is measured by its length. A hole, black and a frozen picture are
/// wanted to last no time at all, silence at most two seconds.
pub proof fn law_a_stretch_is_measured_by_its_length(track: Track, span: Span)
    ensures
        gap_finding(track, span).value == Some(span.end.spec_minus(span.start).secs),
        black_finding(span).value == Some(span.end.spec_minus(span.start).secs),
        frozen_finding(span).value == Some(span.end.spec_minus(span.start).secs),
        silence_finding(span).value == Some(span.end.spec_minus(span.start).secs),
        gap_finding(track, span).required matches Some(wanted) && wanted.num == 0,
        black_finding(span).required matches Some(wanted) && wanted.num == 0,
        frozen_finding(span).required matches Some(wanted) && wanted.num == 0,
        silence_finding(span).required == Some(Rat { num: 2, den: 1 }),
        gap_finding(track, span).target == track.id@,
{
}

/// What is found of a clip is about that clip: of two that overlap, about the later one. It is measured
/// by what the clip does, against what it should.
pub proof fn law_a_clip_is_measured_against_what_it_should_do(
    track: Track,
    first: Clip,
    clip: Clip,
    transition: Transition,
    shortest: Time,
    needed: Time,
    there: Time,
    frames: Rat,
)
    ensures
        overlap_finding(track, first, clip).target == clip.id@,
        long_finding(clip, transition, shortest).target == clip.id@,
        lonely_finding(clip, transition).target == clip.id@,
        past_end_finding(clip, needed, there).target == clip.id@,
        slow_finding(clip, frames).target == clip.id@,
        long_finding(clip, transition, shortest).value == Some(transition.duration.secs),
        long_finding(clip, transition, shortest).required == Some(shortest.secs),
        past_end_finding(clip, needed, there).value == Some(needed.secs),
        past_end_finding(clip, needed, there).required == Some(there.secs),
        slow_finding(clip, frames).value == Some(frames),
        slow_finding(clip, frames).required == Some(Rat { num: 1, den: 1 }),
{
}

/// A picture that is blown up is measured by how much, one that is too narrow by the share of the frame
/// that it leaves bare, in millionths.
pub proof fn law_a_picture_is_measured_against_its_frame(
    clip: Clip,
    name: Seq<char>,
    native: [u32; 2],
    frame: [u32; 2],
    place: Placement,
)
    ensures
        upscaled_finding(clip, name, native, place).target == clip.id@,
        upscaled_finding(clip, name, native, place).value == Some(blow_up(place, native)),
        upscaled_finding(clip, name, native, place).required == Some(Rat { num: 1, den: 1 }),
        letterboxed_finding(clip, name, native, frame, place).target == clip.id@,
        letterboxed_finding(clip, name, native, frame, place).value matches Some(share) && share.den
            == 1_000_000 && share.num == crate::lint_source::bars(place, frame) as i64,
        letterboxed_finding(clip, name, native, frame, place).required matches Some(wanted)
            && wanted.num == 0,
{
}

// ---------------------------------------------------------------------------
// Errors
// ---------------------------------------------------------------------------

/// An error says what went wrong: a tool that is missing is named first, and what it said comes last.
pub proof fn law_an_error_says_what_went_wrong(tool: Seq<char>, detail: Seq<char>)
    ensures
        ErrorView::BadArgs(detail).message() == detail,
        ErrorView::Op(detail).message() == detail,
        ({
            let said = ErrorView::Tool { tool, detail }.message();
            &&& said.len() > tool.len() + detail.len()
            &&& said.take(tool.len() as int) == tool
            &&& said.skip(said.len() - detail.len()) == detail
        }),
{
    reveal_strlit(" unavailable: ");
    let said = ErrorView::Tool { tool, detail }.message();
    assert(said.take(tool.len() as int) =~= tool);
    assert(said.skip(said.len() - detail.len()) =~= detail);
}

/// What was not found is named, and so is everything that could have been meant.
pub proof fn law_what_could_have_been_meant_is_named(
    what: Seq<char>,
    wanted: Seq<char>,
    candidates: Seq<Seq<char>>,
)
    ensures
        ({
            let said = ErrorView::NoMatch { what, wanted, candidates }.message();
            let alone = ErrorView::NoMatch { what, wanted, candidates: seq![] }.message();
            let listed = crate::text::join(candidates, ", "@);
            &&& alone == "no "@ + what + " matches '"@ + wanted + "'"@
            &&& said.len() >= alone.len()
            &&& said.take(alone.len() as int) == alone
            &&& candidates.len() > 0 ==> said.len() >= listed.len() && said.skip(
                said.len() - listed.len(),
            ) == listed
        }),
{
    let said = ErrorView::NoMatch { what, wanted, candidates }.message();
    let alone = ErrorView::NoMatch { what, wanted, candidates: seq![] }.message();
    let listed = crate::text::join(candidates, ", "@);
    assert(said.take(alone.len() as int) =~= alone);
    if candidates.len() > 0 {
        assert(said.skip(said.len() - listed.len()) =~= listed);
    }
}

// ---------------------------------------------------------------------------
// Reports
// ---------------------------------------------------------------------------

proof fn lemma_member(json: JsonView, k: int)
    requires
        json is Object,
        0 <= k < json->Object_0.len(),
    ensures
        has(json, json->Object_0[k].name, json->Object_0[k].value),
{
}

/// A stand-in is reported with its path, its height and its rate.
pub proof fn law_a_stand_in_is_reported(path: Seq<char>, proxy: ProxySpec)
    ensures
        has(proxy_report(path, proxy), "proxy"@, JsonView::Text(path)),
        has(proxy_report(path, proxy), "height"@, JsonView::Number(dec(proxy.height as nat))),
        has(proxy_report(path, proxy), "fps"@, JsonView::Text(proxy.fps.text())),
{
    let json = proxy_report(path, proxy);
    lemma_member(json, 0);
    lemma_member(json, 1);
    lemma_member(json, 2);
}

/// Peaks are reported with their path, how many there are and how many a second.
pub proof fn law_peaks_are_reported(path: Seq<char>, buckets: nat, rate: u32)
    ensures
        has(waveform_report(path, buckets, rate), "waveform"@, JsonView::Text(path)),
        has(waveform_report(path, buckets, rate), "buckets"@, JsonView::Number(dec(buckets))),
        has(
            waveform_report(path, buckets, rate),
            "bucketsPerSecond"@,
            JsonView::Number(dec(rate as nat)),
        ),
{
    let json = waveform_report(path, buckets, rate);
    lemma_member(json, 0);
    lemma_member(json, 1);
    lemma_member(json, 2);
}

/// An import is reported with how many tracks and how many clips it brought, and at what rate.
pub proof fn law_an_import_is_reported(plan: ImportPlan, fps: Fps, size: [u32; 2])
    ensures
        has(imported_json(plan, fps, size), "tracks"@, JsonView::Number(dec(plan.tracks@.len()))),
        has(imported_json(plan, fps, size), "clips"@, JsonView::Number(dec(plan.clips as nat))),
        has(imported_json(plan, fps, size), "fps"@, JsonView::Text(fps.text())),
{
    let json = imported_json(plan, fps, size);
    lemma_member(json, 0);
    lemma_member(json, 1);
    lemma_member(json, 3);
}

/// The journal is reported with how many entries it has, and the last five of them, newest first.
pub proof fn law_the_newest_entries_are_reported(entries: Seq<crate::report::JournalEntry>, k: int)
    requires
        0 <= k < 5,
        k < entries.len(),
    ensures
        has(journal_json(entries), "entries"@, JsonView::Number(dec(entries.len()))),
        has(journal_json(entries), "last"@, JsonView::Array(latest(entries, 5))),
        latest(entries, 5).len() == (if entries.len() < 5 {
            entries.len() as int
        } else {
            5
        }),
        latest(entries, 5)[k] == brief_json(entries[entries.len() - 1 - k]),
{
    let json = journal_json(entries);
    lemma_member(json, 0);
    lemma_member(json, 1);
    lemma_latest(entries, 5, k);
}

proof fn lemma_latest(entries: Seq<crate::report::JournalEntry>, n: int, k: int)
    requires
        0 <= k < n,
        k < entries.len(),
    ensures
        latest(entries, n).len() == (if entries.len() < n {
            entries.len() as int
        } else {
            n
        }),
        latest(entries, n)[k] == brief_json(entries[entries.len() - 1 - k]),
    decreases n,
{
    let rest = entries.drop_last();
    if n > 1 && rest.len() > 0 {
        lemma_latest(rest, n - 1, if k > 0 {
            k - 1
        } else {
            0
        });
    } else {
        assert(latest(rest, n - 1).len() == 0);
    }
}

/// Captions are written as the format that is asked for says, else as the name of the file does.
pub proof fn law_captions_are_written_in_their_format(
    sequence: Sequence,
    out: Seq<char>,
    format: Option<Seq<char>>,
    wanted: Option<Seq<char>>,
)
    ensures
        caption_format(out, format) == "srt"@ ==> captions_file(sequence, out, format, wanted)
            == srt_text(wanted_cues(sequence.tracks@, wanted)),
        caption_format(out, format) == "vtt"@ ==> captions_file(sequence, out, format, wanted)
            == vtt_text(wanted_cues(sequence.tracks@, wanted)),
{
    reveal_strlit("srt");
    reveal_strlit("vtt");
    assert("srt"@[0] == 's' && "vtt"@[0] == 'v');
}

// ---------------------------------------------------------------------------
// Identifiers
// ---------------------------------------------------------------------------

proof fn lemma_bytes(n: nat, count: nat)
    ensures
        be_bytes(n, count).len() == count,
    decreases count,
{
    if count > 0 {
        lemma_bytes(n / 256, (count - 1) as nat);
    }
}

proof fn lemma_run(bytes: Seq<u8>)
    ensures
        hex_run(bytes).len() == 2 * bytes.len(),
    decreases bytes.len(),
{
    if bytes.len() > 0 {
        lemma_run(bytes.drop_last());
    }
}

/// An identifier is written in braces, in groups of eight, four, four, four and twelve digits, and says
/// that it is of the fourth version.
pub proof fn law_an_identifier_has_its_groups(bits: u128)
    ensures
        ({
            let text = uuid_text(bits);
            &&& text.len() == 38
            &&& text[0] == '{' && text[37] == '}'
            &&& text[9] == '-' && text[14] == '-' && text[19] == '-' && text[24] == '-'
            &&& text[15] == '4'
            &&& text[20] == '8' || text[20] == '9' || text[20] == 'a' || text[20] == 'b'
        }),
{
    let b = be_bytes(bits as nat, 16);
    lemma_bytes(bits as nat, 16);
    let (p, q, s) = (hex_run(b.subrange(0, 4)), hex_run(b.subrange(4, 6)), hex_run(
        b.subrange(10, 16),
    ));
    lemma_run(b.subrange(0, 4));
    lemma_run(b.subrange(4, 6));
    lemma_run(b.subrange(10, 16));
    let v: u8 = (b[6] % 16 + 64) as u8;
    let w: u8 = (b[8] % 64 + 128) as u8;
    let head = seq!['{'] + p + seq!['-'] + q + seq!['-'];
    assert(head.len() == 15 && head[0] == '{' && head[9] == '-' && head[14] == '-');
    let mid = head + hex2(v) + hex2(b[7]) + seq!['-'];
    assert(mid.len() == 20 && mid[15] == hex2(v)[0] && mid[19] == '-');
    assert(mid[0] == head[0] && mid[9] == head[9] && mid[14] == head[14]);
    let late = mid + hex2(w) + hex2(b[9]) + seq!['-'];
    assert(late.len() == 25 && late[20] == hex2(w)[0] && late[24] == '-');
    assert(late[0] == mid[0] && late[9] == mid[9] && late[14] == mid[14] && late[15] == mid[15]
        && late[19] == mid[19]);
    assert(uuid_text(bits) == late + s + seq!['}']);
    assert(v as int / 16 == 4);
    assert(8 <= w as int / 16 <= 11);
}

} // verus!
