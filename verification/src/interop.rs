//! A sequence as a document of another program, whatever its numbers are: one that cannot be
//! counted in frames is refused.

use crate::edl::{list_fits, list_of};
use crate::error::{Error, ErrorView};
use crate::fcpxml;
use crate::fits::{can_write_edl, can_write_fcpxml, can_write_mlt, markers_ok};
use crate::json::{kept, pretty_text, to_text};
use crate::mlt_document::{document_error, document_fits, document_of, markers_fit, Document};
use crate::mlt_write::{clocks_fit, document_events, Export};
use crate::otio::{document_json, document_warnings, rate_text};
use crate::project::{Project, Sequence};
use crate::time::{Fps, Time};
use crate::timeline::WarningView;
use crate::views::views;
use crate::xml::xml_text;
use vstd::prelude::*;

verus! {

pub open spec fn out_of_range(name: Seq<char>) -> ErrorView {
    ErrorView::Op("sequence '"@ + name + "' holds positions that cannot be counted in frames"@)
}

fn beyond(sequence: &Sequence) -> (r: Error)
    ensures
        r@ == out_of_range(sequence.name@),
{
    let mut detail = "sequence '".to_owned();
    detail.append(sequence.name.as_str());
    detail.append("' holds positions that cannot be counted in frames");
    Error::Op(detail)
}

/// A document, as its text and what it could not carry.
pub struct Written {
    pub text: Seq<char>,
    pub warnings: Seq<WarningView>,
}

/// What an export gives, where it gives a text.
pub open spec fn is_written(r: Result<Export, Error>, want: Result<Written, ErrorView>) -> bool {
    match (r, want) {
        (Ok(export), Ok(written)) => export.text@ == written.text && views(export.warnings@)
            == written.warnings,
        (Err(error), Err(why)) => error@ == why,
        _ => false,
    }
}

/// The text of an export.
pub open spec fn is_text(r: Result<String, Error>, want: Result<Written, ErrorView>) -> bool {
    match (r, want) {
        (Ok(text), Ok(written)) => text@ == written.text,
        (Err(error), Err(why)) => error@ == why,
        _ => false,
    }
}

// ---------------------------------------------------------------------------
// MLT
// ---------------------------------------------------------------------------

/// The MLT document of a sequence, or why it has none.
pub open spec fn mlt_of(
    project: Project,
    id: Seq<char>,
    root: Seq<char>,
    compositor: Seq<char>,
    kdenlive: bool,
) -> Result<Written, ErrorView> {
    if project.sequence_at(id) < 0 {
        Err(project.no_sequence(id))
    } else {
        let sequence = project.sequences@[project.sequence_at(id)];
        let d = document_of(project, sequence, kdenlive);
        if !document_fits(project, sequence) {
            Err(out_of_range(sequence.name@))
        } else if document_error(project, id) is Some {
            Err(document_error(project, id)->0)
        } else if kdenlive && !clocks_fit(d) {
            Err(out_of_range(sequence.name@))
        } else {
            Ok(
                Written {
                    text: xml_text(
                        document_events(d, project, root, compositor, kdenlive),
                    ).push('\n'),
                    warnings: d.warnings,
                },
            )
        }
    }
}

fn frames_ok(frames: i64, fps: Fps) -> (r: bool)
    requires
        fps.wf(),
    ensures
        r == Time::frames_fit(frames as int, fps),
{
    Time::checked_from_frames(frames, fps).is_some()
}

fn clocks_ok(document: &Document) -> (r: bool)
    requires
        document.fps.wf(),
    ensures
        r == clocks_fit(document@),
{
    if !frames_ok(document.frames, document.fps) {
        return false;
    }
    let producers = &document.producers;
    let mut i: usize = 0;
    while i < producers.len()
        invariant
            i <= producers@.len(),
            producers@ == document.producers@,
            document.fps.wf(),
            forall|k: int|
                0 <= k < i ==> Time::frames_fit(
                    (#[trigger] document@.producers[k]).length,
                    document.fps,
                ),
        decreases producers@.len() - i,
    {
        assert(document@.producers[i as int] == producers@[i as int]@);
        if !frames_ok(producers[i].length, document.fps) {
            return false;
        }
        i = i + 1;
    }
    true
}

/// MLT XML for a sequence; `kdenlive` makes the same document a Kdenlive project.
pub fn export_mlt(
    project: &Project,
    sequence: &str,
    root: &str,
    compositor: &str,
    kdenlive: bool,
) -> (r: Result<Export, Error>)
    ensures
        is_written(r, mlt_of(*project, sequence@, root@, compositor@, kdenlive)),
{
    let found = match project.sequence(sequence) {
        Ok(found) => found,
        Err(error) => return Err(error),
    };
    if !can_write_mlt(project, found) {
        return Err(beyond(found));
    }
    match Document::build(project, sequence, kdenlive) {
        Err(error) => Err(error),
        Ok(document) => {
            if kdenlive && !clocks_ok(&document) {
                return Err(beyond(found));
            }
            let text = document.write(project, root, compositor, kdenlive);
            Ok(Export { text, warnings: document.warnings })
        },
    }
}

/// The text of [`export_mlt`].
pub fn to_mlt(project: &Project, sequence: &str, root: &str, compositor: &str, kdenlive: bool) -> (r:
    Result<String, Error>)
    ensures
        is_text(r, mlt_of(*project, sequence@, root@, compositor@, kdenlive)),
{
    match export_mlt(project, sequence, root, compositor, kdenlive) {
        Ok(export) => Ok(export.text),
        Err(error) => Err(error),
    }
}

// ---------------------------------------------------------------------------
// FCPXML
// ---------------------------------------------------------------------------

/// The FCPXML document of a sequence, or why it has none.
pub open spec fn fcpxml_of(project: Project, id: Seq<char>, root: Seq<char>) -> Result<
    Written,
    ErrorView,
> {
    if project.sequence_at(id) < 0 {
        Err(project.no_sequence(id))
    } else {
        let sequence = project.sequences@[project.sequence_at(id)];
        if !fcpxml::document_fits(project, sequence) {
            Err(out_of_range(sequence.name@))
        } else if document_error(project, id) is Some {
            Err(document_error(project, id)->0)
        } else {
            Ok(
                Written {
                    text: xml_text(fcpxml::document_events(project, sequence, root)).push('\n'),
                    warnings: fcpxml::needs_of(project, sequence).warnings,
                },
            )
        }
    }
}

/// FCPXML for a sequence.
pub fn export_fcpxml(project: &Project, sequence: &str, root: &str) -> (r: Result<Export, Error>)
    ensures
        is_written(r, fcpxml_of(*project, sequence@, root@)),
{
    let found = match project.sequence(sequence) {
        Ok(found) => found,
        Err(error) => return Err(error),
    };
    if !can_write_fcpxml(project, found) {
        return Err(beyond(found));
    }
    fcpxml::export(project, sequence, root)
}

/// The text of [`export_fcpxml`].
pub fn to_fcpxml(project: &Project, sequence: &str, root: &str) -> (r: Result<String, Error>)
    ensures
        is_text(r, fcpxml_of(*project, sequence@, root@)),
{
    match export_fcpxml(project, sequence, root) {
        Ok(export) => Ok(export.text),
        Err(error) => Err(error),
    }
}

// ---------------------------------------------------------------------------
// OpenTimelineIO
// ---------------------------------------------------------------------------

/// The OpenTimelineIO document of a sequence, or why it has none.
pub open spec fn otio_of(project: Project, id: Seq<char>, root: Seq<char>) -> Result<
    Written,
    ErrorView,
> {
    if project.sequence_at(id) < 0 {
        Err(project.no_sequence(id))
    } else {
        let sequence = project.sequences@[project.sequence_at(id)];
        if !fcpxml::document_fits(project, sequence) || !markers_fit(
            sequence.markers@,
            sequence.fps,
        ) {
            Err(out_of_range(sequence.name@))
        } else if document_error(project, id) is Some {
            Err(document_error(project, id)->0)
        } else {
            Ok(
                Written {
                    text: pretty_text(
                        kept(document_json(project, sequence, root, rate_text(sequence.fps))),
                    ).push('\n'),
                    warnings: document_warnings(project, sequence),
                },
            )
        }
    }
}

/// OpenTimelineIO for a sequence.
pub fn export_otio(project: &Project, sequence: &str, root: &str) -> (r: Result<Export, Error>)
    ensures
        is_written(r, otio_of(*project, sequence@, root@)),
{
    let found = match project.sequence(sequence) {
        Ok(found) => found,
        Err(error) => return Err(error),
    };
    if !can_write_fcpxml(project, found) || !markers_ok(&found.markers, found.fps) {
        return Err(beyond(found));
    }
    match crate::otio::export(project, sequence, root) {
        Ok(export) => Ok(Export { text: to_text(&export.document), warnings: export.warnings }),
        Err(error) => Err(error),
    }
}

/// The text of [`export_otio`].
pub fn to_otio(project: &Project, sequence: &str, root: &str) -> (r: Result<String, Error>)
    ensures
        is_text(r, otio_of(*project, sequence@, root@)),
{
    match export_otio(project, sequence, root) {
        Ok(export) => Ok(export.text),
        Err(error) => Err(error),
    }
}

// ---------------------------------------------------------------------------
// Edit decision lists
// ---------------------------------------------------------------------------

/// The CMX3600 list of a sequence, or why it has none.
pub open spec fn edl_of(project: Project, id: Seq<char>) -> Result<Written, ErrorView> {
    if project.sequence_at(id) < 0 {
        Err(project.no_sequence(id))
    } else {
        let sequence = project.sequences@[project.sequence_at(id)];
        if !list_fits(sequence) {
            Err(out_of_range(sequence.name@))
        } else {
            let list = list_of(project, sequence);
            Ok(Written { text: list.text, warnings: list.warnings })
        }
    }
}

/// A CMX3600 list for a sequence.
pub fn export_edl(project: &Project, sequence: &str) -> (r: Result<Export, Error>)
    ensures
        is_written(r, edl_of(*project, sequence@)),
{
    let found = match project.sequence(sequence) {
        Ok(found) => found,
        Err(error) => return Err(error),
    };
    if !can_write_edl(found) {
        return Err(beyond(found));
    }
    crate::edl::export(project, sequence)
}

/// The text of [`export_edl`].
pub fn to_edl(project: &Project, sequence: &str) -> (r: Result<String, Error>)
    ensures
        is_text(r, edl_of(*project, sequence@)),
{
    match export_edl(project, sequence) {
        Ok(export) => Ok(export.text),
        Err(error) => Err(error),
    }
}

} // verus!
