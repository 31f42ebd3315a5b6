//! What the asset operations ask for, and what they decide from what a file is.

use crate::args::{
    argument, at_least, get, list_argument, missing_text, names, number_argument, opt_bool,
    opt_number, opt_str, opt_time, refusal, reject_unknown, str_field, string_list, switch_argument,
    text_argument, time_argument, whole_at_least,
};
use crate::asset_ops::{resolve_asset, resolved};
use crate::error::{Error, ErrorView};
use crate::inspect_ops::{read_switch, switch_or};
use crate::json::{
    array, field, object, push_field, push_text_field, text, Json, JsonField, JsonView,
};
use crate::paths::{file_name, file_name_of};
use crate::project::{opt_text, Asset, Probe, Project};
use crate::proxy::{needs_proxy, source_rate, wants_proxy, ProxySpec, PROXY_HEIGHT};
use crate::report::{count_json, counted};
use crate::text::{same, strings};
use crate::time::{Fps, Time};
use crate::time_text::{not_a_rate, rate_value};
use crate::timeline::{warning_view, Warning, WarningView};
use crate::views::{push_view, views};
use vstd::prelude::*;

verus! {

/// When an import builds a stand-in.
#[derive(Clone, Copy, Debug, PartialEq, Eq, Structural)]
pub enum ProxyMode {
    /// Where the source needs one.
    Auto,
    Always,
    Never,
}

/// What an import is asked for.
#[derive(Clone, Debug)]
pub struct ImportRequest {
    pub paths: Vec<String>,
    pub name: Option<String>,
    pub proxy: ProxyMode,
}

pub struct ImportView {
    pub paths: Seq<Seq<char>>,
    pub name: Option<Seq<char>>,
    pub proxy: ProxyMode,
}

impl View for ImportRequest {
    type V = ImportView;

    open spec fn view(&self) -> ImportView {
        ImportView { paths: strings(self.paths@), name: opt_text(self.name), proxy: self.proxy }
    }
}

pub open spec fn mode_argument(args: JsonView) -> Result<ProxyMode, ErrorView> {
    if argument(args, "proxy"@) == Some(JsonView::Text("auto"@)) {
        Ok(ProxyMode::Auto)
    } else {
        match switch_argument(args, "proxy"@) {
            Err(error) => Err(error),
            Ok(Some(true)) => Ok(ProxyMode::Always),
            Ok(Some(false)) => Ok(ProxyMode::Never),
            Ok(None) => Ok(ProxyMode::Auto),
        }
    }
}

/// The files an import names: a list of them, or one.
pub open spec fn paths_argument(args: JsonView) -> Result<Seq<Seq<char>>, ErrorView> {
    match list_argument(args, "path"@) {
        Err(error) => Err(error),
        Ok(list) => if list.len() > 0 {
            Ok(list)
        } else {
            match text_argument(args, "path"@) {
                Some(text) => Ok(seq![text]),
                None => Err(missing_text("path"@)),
            }
        },
    }
}

pub open spec fn one_name_only() -> ErrorView {
    ErrorView::BadArgs("'name' applies to a single import; drop it when importing several files"@)
}

pub open spec fn import_asked(args: JsonView) -> Result<ImportView, ErrorView> {
    match refusal(args, seq!["path"@, "name"@, "proxy"@]) {
        Some(error) => Err(error),
        None => match paths_argument(args) {
            Err(error) => Err(error),
            Ok(paths) => {
                let name = text_argument(args, "name"@);
                if name is Some && paths.len() > 1 {
                    Err(one_name_only())
                } else {
                    match mode_argument(args) {
                        Err(error) => Err(error),
                        Ok(proxy) => Ok(ImportView { paths, name, proxy }),
                    }
                }
            },
        },
    }
}

fn read_mode(args: &Json) -> (r: Result<ProxyMode, Error>)
    ensures
        (match r {
            Ok(mode) => mode_argument(args@) == Ok::<ProxyMode, ErrorView>(mode),
            Err(error) => mode_argument(args@) == Err::<ProxyMode, ErrorView>(error@),
        }),
{
    if let Some(Json::Text(text)) = get(args, "proxy") {
        if same(text.as_str(), "auto") {
            return Ok(ProxyMode::Auto);
        }
    }
    match opt_bool(args, "proxy") {
        Err(error) => Err(error),
        Ok(Some(true)) => Ok(ProxyMode::Always),
        Ok(Some(false)) => Ok(ProxyMode::Never),
        Ok(None) => Ok(ProxyMode::Auto),
    }
}

fn read_paths(args: &Json) -> (r: Result<Vec<String>, Error>)
    ensures
        (match r {
            Ok(paths) => paths_argument(args@) == Ok::<Seq<Seq<char>>, ErrorView>(
                strings(paths@),
            ),
            Err(error) => paths_argument(args@) == Err::<Seq<Seq<char>>, ErrorView>(error@),
        }),
{
    match string_list(args, "path") {
        Err(error) => Err(error),
        Ok(list) => if list.len() > 0 {
            Ok(list)
        } else {
            match str_field(args, "path") {
                Ok(text) => {
                    let mut one: Vec<String> = Vec::new();
                    one.push(text.as_str().to_owned());
                    assert(strings(one@) =~= seq![text@]);
                    Ok(one)
                },
                Err(error) => Err(error),
            }
        },
    }
}

/// Reads what an import is asked for.
pub fn import_request(args: &Json) -> (r: Result<ImportRequest, Error>)
    ensures
        (match r {
            Ok(request) => import_asked(args@) == Ok::<ImportView, ErrorView>(request@),
            Err(error) => import_asked(args@) == Err::<ImportView, ErrorView>(error@),
        }),
{
    let allowed: Vec<&'static str> = vec!["path", "name", "proxy"];
    assert(names(allowed@) =~= seq!["path"@, "name"@, "proxy"@]);
    match reject_unknown(args, allowed) {
        Err(error) => return Err(error),
        Ok(()) => {},
    }
    let paths = match read_paths(args) {
        Err(error) => return Err(error),
        Ok(paths) => paths,
    };
    let name = match opt_str(args, "name") {
        Some(text) => Some(text.as_str().to_owned()),
        None => None,
    };
    if name.is_some() && paths.len() > 1 {
        return Err(
            Error::bad_args(
                "'name' applies to a single import; drop it when importing several files",
            ),
        );
    }
    match read_mode(args) {
        Err(error) => Err(error),
        Ok(proxy) => Ok(ImportRequest { paths, name, proxy }),
    }
}

// ---------------------------------------------------------------------------
// What becomes of one file
// ---------------------------------------------------------------------------

/// What an import makes of a file.
#[derive(Clone, Debug)]
pub struct ImportPlan {
    pub name: String,
    /// The stand-in to build.
    pub proxy: Option<ProxySpec>,
    pub warning: Option<Warning>,
}

pub open spec fn builds_proxy(probe: Probe, mode: ProxyMode) -> bool {
    probe.video is Some && match mode {
        ProxyMode::Always => true,
        ProxyMode::Never => false,
        ProxyMode::Auto => needs_proxy(probe),
    }
}

/// Whether there is nothing in a file to edit with.
pub open spec fn is_empty_media(probe: Probe) -> bool {
    probe.duration.secs.num == 0 && probe.video is None
}

pub open spec fn nothing_to_read(path: Seq<char>) -> ErrorView {
    ErrorView::Op("'"@ + path + "' has no audio or video streams ffmpeg can read"@)
}

/// The name an asset gets: the one given, else the file's, else the path.
pub open spec fn imported_name(path: Seq<char>, name: Option<Seq<char>>) -> Seq<char> {
    match name {
        Some(name) => name,
        None => match file_name_of(path) {
            Some(name) => name,
            None => path,
        },
    }
}

pub open spec fn import_warning(
    probe: Probe,
    mode: ProxyMode,
    id: Seq<char>,
    name: Seq<char>,
    sequence_fps: Fps,
) -> Option<WarningView> {
    if !probe.vfr {
        None
    } else if builds_proxy(probe, mode) {
        Some(
            WarningView {
                code: "vfr-source"@,
                target: id,
                detail: "'"@ + name
                    + "' has variable frame timing; a constant-rate proxy at "@ + source_rate(
                    probe,
                    sequence_fps,
                ).text() + " was built and frame-exact edits use it"@,
            },
        )
    } else {
        Some(
            WarningView {
                code: "vfr-source"@,
                target: id,
                detail:
                    "variable frame timing and no proxy: frame positions in this source are approximate"@,
            },
        )
    }
}

pub open spec fn not_a_file(path: Seq<char>) -> ErrorView {
    ErrorView::BadArgs("'"@ + path + "' is not a file"@)
}

/// Refuses a path that leads to no file: to a directory, or to nothing.
pub fn check_file(path: &str, is_file: bool) -> (r: Result<(), Error>)
    ensures
        r is Err <==> !is_file,
        r is Err ==> r->Err_0@ == not_a_file(path@),
{
    if !is_file {
        let mut detail = "'".to_owned();
        detail.append(path);
        detail.append("' is not a file");
        return Err(Error::BadArgs(detail));
    }
    Ok(())
}

/// Refuses a file that holds nothing to edit with.
pub fn check_media(probe: &Probe, path: &str) -> (r: Result<(), Error>)
    ensures
        r is Err <==> is_empty_media(*probe),
        r is Err ==> r->Err_0@ == nothing_to_read(path@),
{
    if probe.duration.is_zero() && probe.video.is_none() {
        let mut detail = "'".to_owned();
        detail.append(path);
        detail.append("' has no audio or video streams ffmpeg can read");
        return Err(Error::Op(detail));
    }
    Ok(())
}

/// Decides the name of an imported asset, the stand-in to build for it, and what to warn of.
pub fn plan_media(
    probe: &Probe,
    path: &str,
    id: &str,
    name: &Option<String>,
    mode: ProxyMode,
    sequence_fps: Fps,
) -> (r: ImportPlan)
    requires
        probe.video is Some ==> probe.video->0.sar.wf(),
    ensures
        r.name@ == imported_name(path@, opt_text(*name)),
        r.proxy == (if builds_proxy(*probe, mode) {
            Some(
                ProxySpec {
                    height: PROXY_HEIGHT,
                    fps: source_rate(*probe, sequence_fps),
                    quality: 26,
                },
            )
        } else {
            None
        }),
        warning_view(r.warning) == import_warning(
            *probe,
            mode,
            id@,
            imported_name(path@, opt_text(*name)),
            sequence_fps,
        ),
{
    let name = match name {
        Some(name) => name.as_str().to_owned(),
        None => match file_name(path) {
            Some(name) => name,
            None => path.to_owned(),
        },
    };
    let wants = match mode {
        ProxyMode::Always => true,
        ProxyMode::Never => false,
        ProxyMode::Auto => wants_proxy(probe),
    };
    if wants && probe.video.is_some() {
        let made = ProxySpec::for_probe(probe, sequence_fps);
        let warning = if probe.vfr {
            let mut detail = "'".to_owned();
            detail.append(name.as_str());
            detail.append("' has variable frame timing; a constant-rate proxy at ");
            detail.append(made.fps.to_text().as_str());
            detail.append(" was built and frame-exact edits use it");
            Some(Warning { code: "vfr-source", target: id.to_owned(), detail })
        } else {
            None
        };
        ImportPlan { name, proxy: Some(made), warning }
    } else if probe.vfr {
        let detail =
            "variable frame timing and no proxy: frame positions in this source are approximate".to_owned();
        ImportPlan {
            name,
            proxy: None,
            warning: Some(Warning { code: "vfr-source", target: id.to_owned(), detail }),
        }
    } else {
        ImportPlan { name, proxy: None, warning: None }
    }
}

/// Adds the asset that an import planned: its bytes are stored under `hash`, its stand-in, if one
/// was built, under a path relative to the project.
pub fn add_asset(
    project: &mut Project,
    id: String,
    hash: String,
    probed: crate::probe::Probed,
    path: &str,
    plan: &ImportPlan,
    proxy: Option<String>,
)
    ensures
        final(project).assets@.len() == old(project).assets@.len() + 1,
        final(project).assets@.drop_last() == old(project).assets@,
        ({
            let made = final(project).assets@.last();
            &&& made.id == id
            &&& made.name@ == plan.name@
            &&& made.hash == hash
            &&& made.kind == probed.kind
            &&& made.probe == probed.probe
            &&& made.proxy == proxy
            &&& made.proxy_usable == (proxy is Some)
            &&& opt_text(made.source_path) == Some(path@)
            &&& made.path is None
        }),
        final(project).id == old(project).id,
        final(project).name == old(project).name,
        final(project).active_sequence == old(project).active_sequence,
        final(project).sequences == old(project).sequences,
        final(project).titles == old(project).titles,
        final(project).styles == old(project).styles,
{
    let proxy_usable = proxy.is_some();
    let asset = Asset {
        id,
        name: plan.name.as_str().to_owned(),
        hash,
        kind: probed.kind,
        probe: probed.probe,
        proxy,
        source_path: Some(path.to_owned()),
        path: None,
        proxy_usable,
    };
    project.assets.push(asset);
    assert(project.assets@.drop_last() =~= old(project).assets@);
}

// ---------------------------------------------------------------------------
// Relinking
// ---------------------------------------------------------------------------

pub open spec fn shorter_warning(id: Seq<char>, before: Time, after: Time) -> Option<WarningView> {
    if after.lt(before) {
        Some(
            WarningView {
                code: "past-source-end"@,
                target: id,
                detail: "new file is shorter ("@ + after.clock_text() + " vs "@
                    + before.clock_text() + "); clips may now run past its end"@,
            },
        )
    } else {
        None
    }
}

/// Points an asset at another file: what is kept of the old one is its id and its name.
pub fn relink(asset: &mut Asset, hash: String, probed: crate::probe::Probed, path: &str) -> (r: Option<
    Warning,
>)
    requires
        old(asset).probe.duration.wf(),
        probed.probe.duration.wf(),
    ensures
        warning_view(r) == shorter_warning(
            old(asset).id@,
            old(asset).probe.duration,
            probed.probe.duration,
        ),
        final(asset).hash == hash,
        final(asset).probe == probed.probe,
        final(asset).kind == probed.kind,
        final(asset).proxy is None,
        !final(asset).proxy_usable,
        final(asset).path is None,
        opt_text(final(asset).source_path) == Some(path@),
        final(asset).id == old(asset).id,
        final(asset).name == old(asset).name,
{
    let warning = if probed.probe.duration.before(&asset.probe.duration) {
        let mut detail = "new file is shorter (".to_owned();
        detail.append(probed.probe.duration.clock().as_str());
        detail.append(" vs ");
        detail.append(asset.probe.duration.clock().as_str());
        detail.append("); clips may now run past its end");
        Some(Warning { code: "past-source-end", target: asset.id.as_str().to_owned(), detail })
    } else {
        None
    };
    asset.hash = hash;
    asset.probe = probed.probe;
    asset.kind = probed.kind;
    asset.proxy = None;
    asset.proxy_usable = false;
    asset.path = None;
    asset.source_path = Some(path.to_owned());
    warning
}

// ---------------------------------------------------------------------------
// Stand-ins, thumbnails and waveforms
// ---------------------------------------------------------------------------

/// The asset that the arguments name. -1 where there is none.
pub open spec fn named_asset(project: Project, args: JsonView, allowed: Seq<Seq<char>>) -> Result<
    int,
    ErrorView,
> {
    match refusal(args, allowed) {
        Some(error) => Err(error),
        None => match text_argument(args, "asset"@) {
            None => Err(missing_text("asset"@)),
            Some(text) => if resolved(project, text) >= 0 {
                Ok(resolved(project, text))
            } else {
                Err(project.no_asset(text))
            },
        },
    }
}

fn find_named(project: &Project, args: &Json, allowed: Vec<&'static str>) -> (r: Result<
    usize,
    Error,
>)
    ensures
        (match r {
            Ok(at) => at < project.assets@.len() && named_asset(*project, args@, names(allowed@))
                == Ok::<int, ErrorView>(at as int),
            Err(error) => named_asset(*project, args@, names(allowed@)) == Err::<int, ErrorView>(
                error@,
            ),
        }),
{
    match reject_unknown(args, allowed) {
        Err(error) => return Err(error),
        Ok(()) => {},
    }
    match str_field(args, "asset") {
        Err(error) => Err(error),
        Ok(text) => resolve_asset(project, text.as_str()),
    }
}

pub open spec fn no_picture(name: Seq<char>) -> ErrorView {
    ErrorView::Op("asset '"@ + name + "' has no video stream to proxy"@)
}

pub open spec fn no_sound(name: Seq<char>) -> ErrorView {
    ErrorView::Op("asset '"@ + name + "' has no audio stream"@)
}

/// A number of at least `least`, or another where none is given.
pub open spec fn size_argument(args: JsonView, name: Seq<char>, least: u32, other: u32) -> Result<
    u32,
    ErrorView,
> {
    match number_argument(args, name) {
        Err(error) => Err(error),
        Ok(None) => Ok(other),
        Ok(Some(value)) => Ok(whole_at_least(value, least)),
    }
}

fn read_size(args: &Json, name: &str, least: u32, other: u32) -> (r: Result<u32, Error>)
    ensures
        (match r {
            Ok(value) => size_argument(args@, name@, least, other) == Ok::<u32, ErrorView>(value),
            Err(error) => size_argument(args@, name@, least, other) == Err::<u32, ErrorView>(
                error@,
            ),
        }),
{
    match opt_number(args, name) {
        Err(error) => Err(error),
        Ok(None) => Ok(other),
        Ok(Some(value)) => Ok(at_least(value, least)),
    }
}

/// The stand-in that is asked for: which asset, and what the stand-in is like.
pub open spec fn proxy_asked(project: Project, args: JsonView) -> Result<
    (int, ProxySpec),
    ErrorView,
> {
    match named_asset(project, args, seq!["asset"@, "height"@, "fps"@]) {
        Err(error) => Err(error),
        Ok(at) => if project.sequence_at(project.active_sequence@) < 0 {
            Err(project.no_sequence(project.active_sequence@))
        } else {
            let asset = project.assets@[at];
            let rate = project.sequences@[project.sequence_at(project.active_sequence@)].fps;
            if asset.probe.video is None {
                Err(no_picture(asset.name@))
            } else {
                match size_argument(args, "height"@, 64, PROXY_HEIGHT) {
                    Err(error) => Err(error),
                    Ok(height) => match text_argument(args, "fps"@) {
                        None => Ok(
                            (
                                at,
                                ProxySpec {
                                    height,
                                    fps: source_rate(asset.probe, rate),
                                    quality: 26,
                                },
                            ),
                        ),
                        Some(text) => match rate_value(text) {
                            Some(fps) => Ok((at, ProxySpec { height, fps, quality: 26 })),
                            None => Err(not_a_rate(text)),
                        },
                    },
                }
            }
        },
    }
}

/// Reads what stand-in is asked for.
pub fn proxy_request(project: &Project, args: &Json) -> (r: Result<(usize, ProxySpec), Error>)
    ensures
        (match r {
            Ok((at, made)) => at < project.assets@.len() && proxy_asked(*project, args@) == Ok::<
                (int, ProxySpec),
                ErrorView,
            >((at as int, made)),
            Err(error) => proxy_asked(*project, args@) == Err::<(int, ProxySpec), ErrorView>(
                error@,
            ),
        }),
{
    let allowed: Vec<&'static str> = vec!["asset", "height", "fps"];
    assert(names(allowed@) =~= seq!["asset"@, "height"@, "fps"@]);
    let at = match find_named(project, args, allowed) {
        Err(error) => return Err(error),
        Ok(at) => at,
    };
    let rate = match project.sequence(project.active_sequence.as_str()) {
        Err(error) => return Err(error),
        Ok(sequence) => sequence.fps,
    };
    let asset = &project.assets[at];
    if asset.probe.video.is_none() {
        let mut detail = "asset '".to_owned();
        detail.append(asset.name.as_str());
        detail.append("' has no video stream to proxy");
        return Err(Error::Op(detail));
    }
    let mut made = ProxySpec::for_probe(&asset.probe, rate);
    match read_size(args, "height", 64, PROXY_HEIGHT) {
        Err(error) => return Err(error),
        Ok(height) => {
            made.height = height;
        },
    }
    if let Some(text) = opt_str(args, "fps") {
        match Fps::parse(text.as_str()) {
            Err(error) => return Err(error),
            Ok(fps) => {
                made.fps = fps;
            },
        }
    }
    Ok((at, made))
}

/// The thumbnails that are asked for.
#[derive(Clone, Copy, Debug, PartialEq, Eq, Structural)]
pub struct ThumbnailRequest {
    pub asset: usize,
    pub every: Time,
    pub width: u32,
}

pub open spec fn thumbnails_asked(project: Project, args: JsonView) -> Result<
    (int, Time, u32),
    ErrorView,
> {
    match named_asset(project, args, seq!["asset"@, "every"@, "width"@]) {
        Err(error) => Err(error),
        Ok(at) => if project.sequence_at(project.active_sequence@) < 0 {
            Err(project.no_sequence(project.active_sequence@))
        } else {
            let rate = project.sequences@[project.sequence_at(project.active_sequence@)].fps;
            match time_argument(args, "every"@, rate) {
                Err(error) => Err(error),
                Ok(every) => match size_argument(args, "width"@, 16, 320) {
                    Err(error) => Err(error),
                    Ok(width) => Ok(
                        (
                            at,
                            match every {
                                Some(every) => every,
                                None => Time { secs: crate::rational::Rat { num: 5, den: 1 } },
                            },
                            width,
                        ),
                    ),
                },
            }
        },
    }
}

/// Reads which thumbnails are asked for.
pub fn thumbnails_request(project: &Project, args: &Json) -> (r: Result<ThumbnailRequest, Error>)
    requires
        forall|i: int| 0 <= i < project.sequences@.len() ==> (#[trigger] project.sequences@[i]).fps.wf(),
    ensures
        (match r {
            Ok(wanted) => wanted.asset < project.assets@.len() && thumbnails_asked(*project, args@)
                == Ok::<(int, Time, u32), ErrorView>(
                (wanted.asset as int, wanted.every, wanted.width),
            ),
            Err(error) => thumbnails_asked(*project, args@) == Err::<(int, Time, u32), ErrorView>(
                error@,
            ),
        }),
{
    let allowed: Vec<&'static str> = vec!["asset", "every", "width"];
    assert(names(allowed@) =~= seq!["asset"@, "every"@, "width"@]);
    let asset = match find_named(project, args, allowed) {
        Err(error) => return Err(error),
        Ok(at) => at,
    };
    let rate = match project.sequence(project.active_sequence.as_str()) {
        Err(error) => return Err(error),
        Ok(sequence) => {
            proof {
                crate::project::lemma_index_of(
                    crate::project::sequence_ids(project.sequences@),
                    project.active_sequence@,
                );
            }
            sequence.fps
        },
    };
    let every = match opt_time(args, "every", rate) {
        Err(error) => return Err(error),
        Ok(Some(every)) => every,
        Ok(None) => Time::from_secs(5),
    };
    match read_size(args, "width", 16, 320) {
        Err(error) => Err(error),
        Ok(width) => Ok(ThumbnailRequest { asset, every, width }),
    }
}

pub open spec fn waveform_asked(project: Project, args: JsonView) -> Result<(int, u32), ErrorView> {
    match named_asset(project, args, seq!["asset"@, "buckets-per-second"@]) {
        Err(error) => Err(error),
        Ok(at) => if project.assets@[at].probe.audio is None {
            Err(no_sound(project.assets@[at].name@))
        } else {
            match size_argument(args, "buckets-per-second"@, 1, 20) {
                Err(error) => Err(error),
                Ok(buckets) => Ok((at, buckets)),
            }
        },
    }
}

/// Reads which waveform is asked for: the asset, and the buckets of each second.
pub fn waveform_request(project: &Project, args: &Json) -> (r: Result<(usize, u32), Error>)
    ensures
        (match r {
            Ok((at, buckets)) => at < project.assets@.len() && waveform_asked(*project, args@)
                == Ok::<(int, u32), ErrorView>((at as int, buckets)),
            Err(error) => waveform_asked(*project, args@) == Err::<(int, u32), ErrorView>(error@),
        }),
{
    let allowed: Vec<&'static str> = vec!["asset", "buckets-per-second"];
    assert(names(allowed@) =~= seq!["asset"@, "buckets-per-second"@]);
    let at = match find_named(project, args, allowed) {
        Err(error) => return Err(error),
        Ok(at) => at,
    };
    let asset = &project.assets[at];
    if asset.probe.audio.is_none() {
        let mut detail = "asset '".to_owned();
        detail.append(asset.name.as_str());
        detail.append("' has no audio stream");
        return Err(Error::Op(detail));
    }
    match read_size(args, "buckets-per-second", 1, 20) {
        Err(error) => Err(error),
        Ok(buckets) => Ok((at, buckets)),
    }
}

pub open spec fn removal_asked(project: Project, args: JsonView) -> Result<(int, bool), ErrorView> {
    match named_asset(project, args, seq!["asset"@, "force"@]) {
        Err(error) => Err(error),
        Ok(at) => match switch_or(args, "force"@, false) {
            Err(error) => Err(error),
            Ok(force) => Ok((at, force)),
        },
    }
}

/// Reads which asset is to go, and whether the clips that read it go along.
pub fn remove_request(project: &Project, args: &Json) -> (r: Result<(usize, bool), Error>)
    ensures
        (match r {
            Ok((at, force)) => at < project.assets@.len() && removal_asked(*project, args@) == Ok::<
                (int, bool),
                ErrorView,
            >((at as int, force)),
            Err(error) => removal_asked(*project, args@) == Err::<(int, bool), ErrorView>(error@),
        }),
{
    let allowed: Vec<&'static str> = vec!["asset", "force"];
    assert(names(allowed@) =~= seq!["asset"@, "force"@]);
    let at = match find_named(project, args, allowed) {
        Err(error) => return Err(error),
        Ok(at) => at,
    };
    match read_switch(args, "force", false) {
        Err(error) => Err(error),
        Ok(force) => Ok((at, force)),
    }
}

pub open spec fn relink_asked(project: Project, args: JsonView) -> Result<
    (int, Seq<char>),
    ErrorView,
> {
    match named_asset(project, args, seq!["asset"@, "path"@]) {
        Err(error) => Err(error),
        Ok(at) => match text_argument(args, "path"@) {
            None => Err(missing_text("path"@)),
            Some(path) => Ok((at, path)),
        },
    }
}

/// Reads which asset is pointed at which file.
pub fn relink_request(project: &Project, args: &Json) -> (r: Result<(usize, String), Error>)
    ensures
        (match r {
            Ok((at, path)) => at < project.assets@.len() && relink_asked(*project, args@) == Ok::<
                (int, Seq<char>),
                ErrorView,
            >((at as int, path@)),
            Err(error) => relink_asked(*project, args@) == Err::<(int, Seq<char>), ErrorView>(
                error@,
            ),
        }),
{
    let allowed: Vec<&'static str> = vec!["asset", "path"];
    assert(names(allowed@) =~= seq!["asset"@, "path"@]);
    let at = match find_named(project, args, allowed) {
        Err(error) => return Err(error),
        Ok(at) => at,
    };
    match str_field(args, "path") {
        Err(error) => Err(error),
        Ok(path) => Ok((at, path.as_str().to_owned())),
    }
}

// ---------------------------------------------------------------------------
// What is answered
// ---------------------------------------------------------------------------

pub open spec fn proxy_report(path: Seq<char>, spec_: ProxySpec) -> JsonView {
    JsonView::Object(
        seq![
            field("proxy"@, JsonView::Text(path)),
            field("height"@, count_json(spec_.height as nat)),
            field("fps"@, JsonView::Text(spec_.fps.text())),
        ],
    )
}

/// Answers with the stand-in that was built.
pub fn proxy_answer(path: &str, spec_: &ProxySpec) -> (r: Json)
    ensures
        r@ == proxy_report(path@, *spec_),
{
    let mut fields: Vec<JsonField> = Vec::new();
    assert(views(fields@) =~= seq![]);
    push_text_field(&mut fields, "proxy", path);
    push_field(&mut fields, "height", counted(spec_.height as u128));
    push_text_field(&mut fields, "fps", spec_.fps.to_text().as_str());
    assert(views(fields@) =~= proxy_report(path@, *spec_)->Object_0);
    object(fields)
}

pub open spec fn texts_json(list: Seq<Seq<char>>) -> Seq<JsonView> {
    list.map_values(|text: Seq<char>| JsonView::Text(text))
}

pub open spec fn thumbnails_report(files: Seq<Seq<char>>) -> JsonView {
    JsonView::Object(seq![field("thumbnails"@, JsonView::Array(texts_json(files)))])
}

/// Answers with the thumbnails that were written, in the order of their instants.
pub fn thumbnails_answer(files: &Vec<String>) -> (r: Json)
    ensures
        r@ == thumbnails_report(strings(files@)),
{
    let mut items: Vec<Json> = Vec::new();
    let mut i: usize = 0;
    while i < files.len()
        invariant
            i <= files@.len(),
            views(items@) =~= texts_json(strings(files@)).take(i as int),
        decreases files@.len() - i,
    {
        push_view(&mut items, text(files[i].as_str()));
        i = i + 1;
    }
    assert(views(items@) =~= texts_json(strings(files@)));
    let mut fields: Vec<JsonField> = Vec::new();
    assert(views(fields@) =~= seq![]);
    push_field(&mut fields, "thumbnails", array(items));
    assert(views(fields@) =~= thumbnails_report(strings(files@))->Object_0);
    object(fields)
}

pub open spec fn waveform_report(path: Seq<char>, buckets: nat, per_second: u32) -> JsonView {
    JsonView::Object(
        seq![
            field("waveform"@, JsonView::Text(path)),
            field("buckets"@, count_json(buckets)),
            field("bucketsPerSecond"@, count_json(per_second as nat)),
        ],
    )
}

/// Answers with the waveform that was cached.
pub fn waveform_answer(path: &str, buckets: usize, per_second: u32) -> (r: Json)
    ensures
        r@ == waveform_report(path@, buckets as nat, per_second),
{
    let mut fields: Vec<JsonField> = Vec::new();
    assert(views(fields@) =~= seq![]);
    push_text_field(&mut fields, "waveform", path);
    push_field(&mut fields, "buckets", counted(buckets as u128));
    push_field(&mut fields, "bucketsPerSecond", counted(per_second as u128));
    assert(views(fields@) =~= waveform_report(path@, buckets as nat, per_second)->Object_0);
    object(fields)
}

/// The assets that the store no longer has.
pub open spec fn gone(assets: Seq<Asset>) -> Seq<(Seq<char>, Seq<char>)>
    decreases assets.len(),
{
    if assets.len() == 0 {
        seq![]
    } else if assets.last().path is None {
        gone(assets.drop_last()).push((assets.last().id@, assets.last().name@))
    } else {
        gone(assets.drop_last())
    }
}

pub open spec fn pair_views(pairs: Seq<(String, String)>) -> Seq<(Seq<char>, Seq<char>)> {
    pairs.map_values(|p: (String, String)| (p.0@, p.1@))
}

/// Id and name of each asset whose bytes the store no longer has.
pub fn missing_assets(project: &Project) -> (r: Vec<(String, String)>)
    ensures
        pair_views(r@) == gone(project.assets@),
{
    let mut out: Vec<(String, String)> = Vec::new();
    let mut i: usize = 0;
    assert(project.assets@.take(0) =~= seq![]);
    assert(pair_views(out@) =~= seq![]);
    while i < project.assets.len()
        invariant
            i <= project.assets@.len(),
            pair_views(out@) == gone(project.assets@.take(i as int)),
        decreases project.assets@.len() - i,
    {
        assert(project.assets@.take(i + 1).drop_last() =~= project.assets@.take(i as int));
        let asset = &project.assets[i];
        if asset.path.is_none() {
            out.push((asset.id.as_str().to_owned(), asset.name.as_str().to_owned()));
            assert(pair_views(out@) =~= gone(project.assets@.take(i as int)).push(
                (asset.id@, asset.name@),
            ));
        }
        i = i + 1;
    }
    assert(project.assets@.take(i as int) =~= project.assets@);
    out
}

} // verus!
