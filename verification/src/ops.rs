//! The operations on media, timelines and reports: their ids, what they are for, whether they
//! change anything, and what they take.

use crate::text::{push_text, strings};
use vstd::prelude::*;

verus! {

/// The id of each operation.
pub const OP_ID: [&'static str; 21] = [
    "asset.import",
    "asset.remove",
    "asset.relink",
    "asset.proxy",
    "asset.thumbnails",
    "asset.waveform",
    "export.kdenlive",
    "export.mlt",
    "export.fcpxml",
    "export.otio",
    "export.edl",
    "export.srt",
    "import.mlt",
    "inspect.digest",
    "inspect.lint",
    "inspect.scenes",
    "inspect.silence",
    "inspect.loudness",
    "inspect.probe",
    "marker.from-scenes",
    "seq.auto-cut-scenes",
];

/// What it is for.
pub const OP_ABOUT: [&'static str; 21] = [
    "probe, hash and copy media into the project, building a proxy when one is needed",
    "drop an asset from the project; refuses while clips still use it",
    "point an asset at a new file, re-probing and re-hashing it",
    "build or rebuild a constant-rate, low-resolution stand-in for an asset",
    "extract evenly spaced thumbnails for an asset into the cache",
    "compute min/max/RMS peaks for an asset's audio and cache them",
    "write the sequence as a Kdenlive 26.08 project (MLT XML with kdenlive:* properties)",
    "write the sequence as plain MLT XML, for melt and other MLT hosts",
    "write the sequence as FCPXML 1.11, for Final Cut Pro and Resolve",
    "write the sequence as OpenTimelineIO JSON",
    "write the sequence as a CMX3600 EDL",
    "write the sequence's caption cues as SubRip or WebVTT",
    "append the tracks of an MLT or .kdenlive document to the active sequence",
    "Describe a sequence: clips, gaps, titles, captions, loudness, black/frozen/scene ranges",
    "Check a sequence against every lint rule; findings are data, not an error",
    "Find shot changes, refined to the frame",
    "Find spans of the mix with no audible audio",
    "Measure the mix: integrated LUFS, true peak, loudness range, clipping",
    "Re-probe an asset's stored bytes and compare with what the document believes",
    "Add a marker at every detected shot change",
    "Split clips at every detected shot change",
];

/// Whether it only looks, so that there is nothing to undo.
pub const OP_QUERY: [bool; 21] = [
    false,
    false,
    false,
    false,
    true,
    true,
    true,
    true,
    true,
    true,
    true,
    true,
    false,
    true,
    true,
    true,
    true,
    true,
    true,
    false,
    false,
];

/// What it takes, as the JSON text of a schema.
pub const OP_SCHEMA: [&'static str; 21] = [
    "{\"type\":\"object\",\"required\":[\"path\"],\"properties\":{\"path\":{\"description\":\"file to import, or a list of files\",\"oneOf\":[{\"type\":\"string\"},{\"type\":\"array\",\"items\":{\"type\":\"string\"}}]},\"name\":{\"type\":\"string\",\"description\":\"display name; defaults to the file name\"},\"proxy\":{\"description\":\"'auto' (default) builds one for VFR or >1080p sources\",\"oneOf\":[{\"type\":\"boolean\"},{\"const\":\"auto\"}]}}}",
    "{\"type\":\"object\",\"required\":[\"asset\"],\"properties\":{\"asset\":{\"type\":\"string\",\"description\":\"asset id, name or file stem\"},\"force\":{\"type\":\"boolean\",\"description\":\"also remove every clip using it\"}}}",
    "{\"type\":\"object\",\"required\":[\"asset\",\"path\"],\"properties\":{\"asset\":{\"type\":\"string\"},\"path\":{\"type\":\"string\"}}}",
    "{\"type\":\"object\",\"required\":[\"asset\"],\"properties\":{\"asset\":{\"type\":\"string\"},\"height\":{\"type\":\"integer\",\"minimum\":64,\"default\":540},\"fps\":{\"type\":\"string\",\"description\":\"output rate; defaults to the source rate\"}}}",
    "{\"type\":\"object\",\"required\":[\"asset\"],\"properties\":{\"asset\":{\"type\":\"string\"},\"every\":{\"type\":\"string\",\"default\":\"5s\"},\"width\":{\"type\":\"integer\",\"minimum\":16,\"default\":320}}}",
    "{\"type\":\"object\",\"required\":[\"asset\"],\"properties\":{\"asset\":{\"type\":\"string\"},\"buckets-per-second\":{\"type\":\"integer\",\"minimum\":1,\"default\":20}}}",
    "{\"type\":\"object\",\"required\":[\"out\"],\"properties\":{\"out\":{\"type\":\"string\",\"description\":\"file to write a Kdenlive project to; a relative path is resolved against the project root (conventionally *.kdenlive)\"}}}",
    "{\"type\":\"object\",\"required\":[\"out\"],\"properties\":{\"out\":{\"type\":\"string\",\"description\":\"file to write an MLT document to; a relative path is resolved against the project root (conventionally *.mlt)\"}}}",
    "{\"type\":\"object\",\"required\":[\"out\"],\"properties\":{\"out\":{\"type\":\"string\",\"description\":\"file to write an FCPXML document to; a relative path is resolved against the project root (conventionally *.fcpxml)\"}}}",
    "{\"type\":\"object\",\"required\":[\"out\"],\"properties\":{\"out\":{\"type\":\"string\",\"description\":\"file to write an OTIO timeline to; a relative path is resolved against the project root (conventionally *.otio)\"}}}",
    "{\"type\":\"object\",\"required\":[\"out\"],\"properties\":{\"out\":{\"type\":\"string\",\"description\":\"file to write an EDL to; a relative path is resolved against the project root (conventionally *.edl)\"}}}",
    "{\"type\":\"object\",\"required\":[\"out\"],\"properties\":{\"out\":{\"type\":\"string\",\"description\":\"subtitle file to write; relative paths resolve against the project root\"},\"format\":{\"type\":\"string\",\"enum\":[\"srt\",\"vtt\"],\"description\":\"defaults to the extension of 'out'\"},\"track\":{\"type\":\"string\",\"description\":\"caption track to export; default is every caption track, merged\"}}}",
    "{\"type\":\"object\",\"required\":[\"path\"],\"properties\":{\"path\":{\"type\":\"string\",\"description\":\"MLT or .kdenlive file to read; relative paths resolve against the project root\"}}}",
    "{\"type\":\"object\",\"properties\":{\"sample-every\":{\"type\":\"string\",\"description\":\"Interval between analysed frames; smaller costs proportionally more\",\"default\":\"1/1\",\"examples\":[\"1/1\",\"5s\",\"1f\"]},\"scale\":{\"type\":\"number\",\"description\":\"Render scale for the analysed frames\",\"default\":0.5,\"exclusiveMinimum\":0.0,\"maximum\":1.0},\"proxy\":{\"type\":\"boolean\",\"description\":\"Decode from proxies where they exist\",\"default\":true},\"audio\":{\"type\":\"boolean\",\"description\":\"Mix and measure the audio; off skips the most expensive step\",\"default\":true}},\"required\":[],\"additionalProperties\":false}",
    "{\"type\":\"object\",\"properties\":{\"sample-every\":{\"type\":\"string\",\"description\":\"Interval between analysed frames; smaller costs proportionally more\",\"default\":\"1/1\",\"examples\":[\"1/1\",\"5s\",\"1f\"]},\"scale\":{\"type\":\"number\",\"description\":\"Render scale for the analysed frames\",\"default\":0.5,\"exclusiveMinimum\":0.0,\"maximum\":1.0},\"proxy\":{\"type\":\"boolean\",\"description\":\"Decode from proxies where they exist\",\"default\":true},\"profile\":{\"type\":\"string\",\"description\":\"Loudness target to judge the mix against\",\"enum\":[\"youtube\",\"podcast\",\"broadcast\"],\"default\":\"youtube\"},\"render\":{\"type\":\"boolean\",\"description\":\"Run the rules that need pixels and samples; off is a document-only pass with no ffmpeg\",\"default\":true}},\"required\":[],\"additionalProperties\":false}",
    "{\"type\":\"object\",\"properties\":{\"sample-every\":{\"type\":\"string\",\"description\":\"Interval between analysed frames; smaller costs proportionally more\",\"default\":\"1/1\",\"examples\":[\"1/1\",\"5s\",\"1f\"]},\"scale\":{\"type\":\"number\",\"description\":\"Render scale for the analysed frames\",\"default\":0.5,\"exclusiveMinimum\":0.0,\"maximum\":1.0},\"proxy\":{\"type\":\"boolean\",\"description\":\"Decode from proxies where they exist\",\"default\":true},\"threshold\":{\"type\":\"number\",\"description\":\"Mean absolute pixel difference that counts as a shot change\",\"default\":0.3,\"exclusiveMinimum\":0.0,\"maximum\":3.0}},\"required\":[],\"additionalProperties\":false}",
    "{\"type\":\"object\",\"properties\":{\"threshold-db\":{\"type\":\"number\",\"description\":\"Level below which a window counts as silence, in dBFS\",\"default\":-45.0,\"maximum\":0.0},\"min-duration\":{\"type\":\"string\",\"description\":\"Shortest silence to report\",\"default\":\"1/2\",\"examples\":[\"1/4\",\"0.5\",\"2s\"]}},\"required\":[],\"additionalProperties\":false}",
    "{\"type\":\"object\",\"properties\":{\"profile\":{\"type\":\"string\",\"description\":\"Target to compare against, and the gain that would reach it\",\"enum\":[\"youtube\",\"podcast\",\"broadcast\"],\"default\":\"youtube\"}},\"required\":[],\"additionalProperties\":false}",
    "{\"type\":\"object\",\"properties\":{\"asset\":{\"type\":\"string\",\"description\":\"Asset id, name or file stem\",\"examples\":[\"talk.mp4\",\"ast_01J8XYZ\"]}},\"required\":[\"asset\"],\"additionalProperties\":false}",
    "{\"type\":\"object\",\"properties\":{\"sample-every\":{\"type\":\"string\",\"description\":\"Interval between analysed frames; smaller costs proportionally more\",\"default\":\"1/1\",\"examples\":[\"1/1\",\"5s\",\"1f\"]},\"scale\":{\"type\":\"number\",\"description\":\"Render scale for the analysed frames\",\"default\":0.5,\"exclusiveMinimum\":0.0,\"maximum\":1.0},\"proxy\":{\"type\":\"boolean\",\"description\":\"Decode from proxies where they exist\",\"default\":true},\"threshold\":{\"type\":\"number\",\"description\":\"Mean absolute pixel difference that counts as a shot change\",\"default\":0.3,\"exclusiveMinimum\":0.0,\"maximum\":3.0},\"prefix\":{\"type\":\"string\",\"description\":\"Marker name prefix; markers are named '<prefix> N'\",\"default\":\"scene\"},\"replace\":{\"type\":\"boolean\",\"description\":\"Remove existing markers with this prefix first, so re-running is idempotent\",\"default\":true}},\"required\":[],\"additionalProperties\":false}",
    "{\"type\":\"object\",\"properties\":{\"sample-every\":{\"type\":\"string\",\"description\":\"Interval between analysed frames; smaller costs proportionally more\",\"default\":\"1/1\",\"examples\":[\"1/1\",\"5s\",\"1f\"]},\"scale\":{\"type\":\"number\",\"description\":\"Render scale for the analysed frames\",\"default\":0.5,\"exclusiveMinimum\":0.0,\"maximum\":1.0},\"proxy\":{\"type\":\"boolean\",\"description\":\"Decode from proxies where they exist\",\"default\":true},\"threshold\":{\"type\":\"number\",\"description\":\"Mean absolute pixel difference that counts as a shot change\",\"default\":0.3,\"exclusiveMinimum\":0.0,\"maximum\":3.0},\"track\":{\"type\":\"string\",\"description\":\"Track selector; defaults to every unlocked video track\",\"examples\":[\"V1\",\"track[kind=video]\"]}},\"required\":[],\"additionalProperties\":false}",
];

/// An operation.
#[derive(Clone, Copy, Debug)]
pub struct OpEntry {
    pub id: &'static str,
    pub about: &'static str,
    pub query: bool,
    pub schema: &'static str,
}

pub open spec fn entry_of(i: int) -> OpEntry {
    OpEntry {
        id: OP_ID@[i],
        about: OP_ABOUT@[i],
        query: OP_QUERY@[i],
        schema: OP_SCHEMA@[i],
    }
}

/// Every operation, in order.
pub fn operations() -> (r: Vec<OpEntry>)
    ensures
        r@ == Seq::new(21, |i: int| entry_of(i)),
{
    let ids = OP_ID;
    let abouts = OP_ABOUT;
    let queries = OP_QUERY;
    let schemas = OP_SCHEMA;
    let mut out: Vec<OpEntry> = Vec::new();
    let mut i: usize = 0;
    while i < 21
        invariant
            i <= 21,
            ids@ == OP_ID@,
            abouts@ == OP_ABOUT@,
            queries@ == OP_QUERY@,
            schemas@ == OP_SCHEMA@,
            ids@.len() == 21,
            abouts@.len() == 21,
            queries@.len() == 21,
            schemas@.len() == 21,
            out@ =~= Seq::new(i as nat, |k: int| entry_of(k)),
        decreases 21 - i,
    {
        out.push(
            OpEntry { id: ids[i], about: abouts[i], query: queries[i], schema: schemas[i] },
        );
        i = i + 1;
    }
    out
}

/// The ids of all operations, in order.
pub fn operation_ids() -> (r: Vec<String>)
    ensures
        strings(r@) == Seq::new(21, |i: int| OP_ID@[i]@),
{
    let ids = OP_ID;
    let mut out: Vec<String> = Vec::new();
    let mut i: usize = 0;
    while i < 21
        invariant
            i <= 21,
            ids@ == OP_ID@,
            ids@.len() == 21,
            strings(out@) =~= Seq::new(i as nat, |k: int| OP_ID@[k]@),
        decreases 21 - i,
    {
        push_text(&mut out, ids[i]);
        i = i + 1;
    }
    out
}

} // verus!
