//! Rules on linked clips, and on what the asset store holds.

use crate::finding::{push_secs3, secs3, zero, Finding, FindingView, Severity};
use crate::lint_source::{one, push_finding};
use crate::lint_timeline::finding_view;
use crate::project::{Asset, Clip, Effect, Project, Sequence, Track};
use crate::rational::Rat;
use crate::text::{chars_of, same, text_before};
use crate::time::Time;
use crate::views::views;
use vstd::prelude::*;

verus! {

/// Whether one text stands before another.
pub fn stands_before(a: &str, b: &str) -> (r: bool)
    ensures
        r == text_before(a@, b@),
{
    let x = chars_of(a);
    let y = chars_of(b);
    let mut i: usize = 0;
    assert(x@.skip(0) =~= x@);
    assert(y@.skip(0) =~= y@);
    while i < x.len() && i < y.len() && x[i] == y[i]
        invariant
            i <= x@.len(),
            i <= y@.len(),
            text_before(x@.skip(i as int), y@.skip(i as int)) == text_before(x@, y@),
        decreases x@.len() - i,
    {
        assert(x@.skip(i as int)[0] == x@[i as int]);
        assert(y@.skip(i as int)[0] == y@[i as int]);
        assert(x@.skip(i as int).skip(1) =~= x@.skip(i + 1));
        assert(y@.skip(i as int).skip(1) =~= y@.skip(i + 1));
        i = i + 1;
    }
    if i >= y.len() {
        assert(y@.skip(i as int).len() == 0);
        return false;
    }
    if i >= x.len() {
        assert(x@.skip(i as int).len() == 0);
        return true;
    }
    assert(x@.skip(i as int)[0] == x@[i as int]);
    assert(y@.skip(i as int)[0] == y@[i as int]);
    (x[i] as u32) < (y[i] as u32)
}

// ---------------------------------------------------------------------------
// Links
// ---------------------------------------------------------------------------

/// The clips of some tracks, in order.
pub open spec fn all_clips(tracks: Seq<Track>) -> Seq<Clip>
    decreases tracks.len(),
{
    if tracks.len() == 0 {
        seq![]
    } else {
        all_clips(tracks.drop_last()) + tracks.last().clips@
    }
}

/// The first clip with an id.
pub open spec fn clip_named(clips: Seq<Clip>, id: Seq<char>) -> Option<Clip>
    decreases clips.len(),
{
    if clips.len() == 0 {
        None
    } else {
        match clip_named(clips.drop_last(), id) {
            Some(clip) => Some(clip),
            None => if clips.last().id@ == id {
                Some(clips.last())
            } else {
                None
            },
        }
    }
}

proof fn lemma_named_in_sum(a: Seq<Clip>, b: Seq<Clip>, id: Seq<char>)
    ensures
        clip_named(a + b, id) == (match clip_named(a, id) {
            Some(clip) => Some(clip),
            None => clip_named(b, id),
        }),
    decreases b.len(),
{
    if b.len() == 0 {
        assert(a + b =~= a);
    } else {
        lemma_named_in_sum(a, b.drop_last(), id);
        assert((a + b).drop_last() =~= a + b.drop_last());
    }
}

fn find_in_track<'a>(clips: &'a Vec<Clip>, id: &str) -> (r: Option<&'a Clip>)
    ensures
        (match r {
            Some(clip) => clip_named(clips@, id@) == Some(*clip),
            None => clip_named(clips@, id@) is None,
        }),
{
    let mut i: usize = 0;
    assert(clips@.take(0) =~= seq![]);
    while i < clips.len()
        invariant
            i <= clips@.len(),
            clip_named(clips@.take(i as int), id@) is None,
        decreases clips@.len() - i,
    {
        assert(clips@.take(i + 1).drop_last() =~= clips@.take(i as int));
        if same(clips[i].id.as_str(), id) {
            assert(clips@ =~= clips@.take(i + 1) + clips@.skip(i + 1));
            proof {
                lemma_named_in_sum(clips@.take(i + 1), clips@.skip(i + 1), id@);
            }
            return Some(&clips[i]);
        }
        i = i + 1;
    }
    assert(clips@.take(i as int) =~= clips@);
    None
}

impl Sequence {
    /// The clip with an id, wherever it is.
    pub fn find_clip(&self, id: &str) -> (r: Option<&Clip>)
        ensures
            (match r {
                Some(clip) => clip_named(all_clips(self.tracks@), id@) == Some(*clip),
                None => clip_named(all_clips(self.tracks@), id@) is None,
            }),
    {
        let tracks = &self.tracks;
        let mut t: usize = 0;
        assert(tracks@.take(0) =~= seq![]);
        while t < tracks.len()
            invariant
                t <= tracks@.len(),
                tracks@ == self.tracks@,
                clip_named(all_clips(tracks@.take(t as int)), id@) is None,
            decreases tracks@.len() - t,
        {
            proof {
                assert(tracks@.take(t + 1).drop_last() =~= tracks@.take(t as int));
                lemma_named_in_sum(
                    all_clips(tracks@.take(t as int)),
                    tracks@[t as int].clips@,
                    id@,
                );
            }
            if let Some(clip) = find_in_track(&tracks[t].clips, id) {
                proof {
                    lemma_prefix_decides(tracks@, t + 1, id@);
                }
                return Some(clip);
            }
            t = t + 1;
        }
        assert(tracks@.take(t as int) =~= tracks@);
        None
    }
}

proof fn lemma_prefix_decides(tracks: Seq<Track>, n: int, id: Seq<char>)
    requires
        0 <= n <= tracks.len(),
        clip_named(all_clips(tracks.take(n)), id) is Some,
    ensures
        clip_named(all_clips(tracks), id) == clip_named(all_clips(tracks.take(n)), id),
    decreases tracks.len() - n,
{
    if n == tracks.len() {
        assert(tracks.take(n) =~= tracks);
    } else {
        assert(tracks.take(n + 1).drop_last() =~= tracks.take(n));
        lemma_named_in_sum(all_clips(tracks.take(n)), tracks[n].clips@, id);
        lemma_prefix_decides(tracks, n + 1, id);
    }
}

/// How far two instants lie apart.
pub open spec fn apart(a: Time, b: Time) -> Time {
    if a.lt(b) {
        b.spec_minus(a)
    } else {
        a.spec_minus(b)
    }
}

pub open spec fn apart_fits(a: Time, b: Time) -> bool {
    if a.lt(b) {
        b.difference_fits(a)
    } else {
        a.difference_fits(b)
    }
}

pub fn distance(a: Time, b: Time) -> (r: Time)
    requires
        a.wf(),
        b.wf(),
        apart_fits(a, b),
    ensures
        r == apart(a, b),
        r.wf(),
{
    if a.before(&b) {
        b.minus(&a)
    } else {
        a.minus(&b)
    }
}

/// How far two linked clips have come out of step.
pub open spec fn drift(clip: Clip, other: Clip) -> Time {
    apart(clip.start, other.start).spec_max(apart(clip.duration, other.duration))
}

#[verifier::opaque]
pub open spec fn link_finding(clips: Seq<Clip>, clip: Clip) -> Option<FindingView> {
    match clip.link {
        None => None,
        Some(link) => match clip_named(clips, link@) {
            None => Some(
                FindingView {
                    rule: "av-drift"@,
                    severity: Severity::Warning,
                    target: clip.id@,
                    detail: "'"@ + clip.spec_label() + "' is linked to "@ + link@
                        + ", which is not in this sequence"@,
                    value: None,
                    required: None,
                },
            ),
            Some(other) => if text_before(other.id@, clip.id@) {
                // The clip that stands first by its id speaks for both.
                None
            } else if drift(clip, other).secs.num > 0 {
                Some(
                    FindingView {
                        rule: "av-drift"@,
                        severity: Severity::Warning,
                        target: clip.id@,
                        detail: "'"@ + clip.spec_label() + "' and its linked '"@
                            + other.spec_label() + "' differ by "@ + secs3(drift(clip, other))
                            + "s in position or length"@,
                        value: Some(drift(clip, other).secs),
                        required: Some(zero()),
                    },
                )
            } else {
                None
            },
        },
    }
}

pub open spec fn link_fits(clips: Seq<Clip>, clip: Clip) -> bool {
    match clip.link {
        None => true,
        Some(link) => match clip_named(clips, link@) {
            None => true,
            Some(other) => {
                &&& other.wf()
                &&& apart_fits(clip.start, other.start)
                &&& apart_fits(clip.duration, other.duration)
            },
        },
    }
}

/// Whether a clip and the one it is linked to are still in step.
pub fn link_rules(sequence: &Sequence, clip: &Clip) -> (r: Option<Finding>)
    requires
        clip.wf(),
        link_fits(all_clips(sequence.tracks@), *clip),
    ensures
        finding_view(r) == link_finding(all_clips(sequence.tracks@), *clip),
{
    reveal(link_finding);
    let link = match &clip.link {
        Some(link) => link,
        None => {
            return None;
        },
    };
    let other = match sequence.find_clip(link.as_str()) {
        Some(other) => other,
        None => {
            let mut detail = "'".to_owned();
            detail.append(clip.label());
            detail.append("' is linked to ");
            detail.append(link.as_str());
            detail.append(", which is not in this sequence");
            return Some(
                Finding {
                    rule: "av-drift",
                    severity: Severity::Warning,
                    target: clip.id.as_str().to_owned(),
                    detail,
                    value: None,
                    required: None,
                },
            );
        },
    };
    if stands_before(other.id.as_str(), clip.id.as_str()) {
        return None;
    }
    let by = distance(clip.start, other.start).max(distance(clip.duration, other.duration));
    if !by.is_positive() {
        return None;
    }
    let mut detail = "'".to_owned();
    detail.append(clip.label());
    detail.append("' and its linked '");
    detail.append(other.label());
    detail.append("' differ by ");
    push_secs3(&mut detail, by);
    detail.append("s in position or length");
    Some(
        Finding {
            rule: "av-drift",
            severity: Severity::Warning,
            target: clip.id.as_str().to_owned(),
            detail,
            value: Some(by.secs),
            required: Some(Rat { num: 0, den: 1 }),
        },
    )
}

// ---------------------------------------------------------------------------
// The store
// ---------------------------------------------------------------------------

/// Whether an effect names an asset.
pub open spec fn effect_names(effect: Effect, asset: Seq<char>) -> bool {
    exists|p: int| 0 <= p < effect.params@.len() && (#[trigger] effect.params@[p])@ == asset
}

/// Whether a clip needs an asset: as its source, or through an effect.
pub open spec fn clip_needs(clip: Clip, asset: Seq<char>) -> bool {
    clip.source.asset() == Some(asset) || exists|e: int|
        0 <= e < clip.effects@.len() && effect_names(#[trigger] clip.effects@[e], asset)
}

pub open spec fn clips_need(clips: Seq<Clip>, asset: Seq<char>) -> bool {
    exists|c: int| 0 <= c < clips.len() && clip_needs(#[trigger] clips[c], asset)
}

pub open spec fn tracks_need(tracks: Seq<Track>, asset: Seq<char>) -> bool {
    exists|t: int| 0 <= t < tracks.len() && clips_need((#[trigger] tracks[t]).clips@, asset)
}

/// Whether anything in a project needs an asset.
pub open spec fn is_referenced(project: Project, asset: Seq<char>) -> bool {
    exists|s: int|
        0 <= s < project.sequences@.len() && tracks_need(
            (#[trigger] project.sequences@[s]).tracks@,
            asset,
        )
}

fn needs(clip: &Clip, asset: &str) -> (r: bool)
    ensures
        r == clip_needs(*clip, asset@),
{
    if let Some(id) = clip.source.asset_id() {
        if same(id.as_str(), asset) {
            return true;
        }
    }
    let mut e: usize = 0;
    while e < clip.effects.len()
        invariant
            e <= clip.effects@.len(),
            forall|k: int| 0 <= k < e ==> !effect_names(#[trigger] clip.effects@[k], asset@),
        decreases clip.effects@.len() - e,
    {
        let params = &clip.effects[e].params;
        let mut p: usize = 0;
        while p < params.len()
            invariant
                p <= params@.len(),
                e < clip.effects@.len(),
                params@ == clip.effects@[e as int].params@,
                forall|k: int| 0 <= k < p ==> (#[trigger] params@[k])@ != asset@,
            decreases params@.len() - p,
        {
            if same(params[p].as_str(), asset) {
                assert(effect_names(clip.effects@[e as int], asset@));
                return true;
            }
            p = p + 1;
        }
        e = e + 1;
    }
    false
}

fn some_clip_needs(clips: &Vec<Clip>, asset: &str) -> (r: bool)
    ensures
        r == clips_need(clips@, asset@),
{
    let mut c: usize = 0;
    while c < clips.len()
        invariant
            c <= clips@.len(),
            forall|k: int| 0 <= k < c ==> !clip_needs(#[trigger] clips@[k], asset@),
        decreases clips@.len() - c,
    {
        if needs(&clips[c], asset) {
            return true;
        }
        c = c + 1;
    }
    false
}

/// Whether anything in a project needs an asset. An effect may be all that does.
pub fn referenced(project: &Project, asset: &str) -> (r: bool)
    ensures
        r == is_referenced(*project, asset@),
{
    let mut s: usize = 0;
    while s < project.sequences.len()
        invariant
            s <= project.sequences@.len(),
            forall|k: int|
                0 <= k < s ==> !tracks_need((#[trigger] project.sequences@[k]).tracks@, asset@),
        decreases project.sequences@.len() - s,
    {
        let tracks = &project.sequences[s].tracks;
        let mut t: usize = 0;
        while t < tracks.len()
            invariant
                t <= tracks@.len(),
                s < project.sequences@.len(),
                tracks@ == project.sequences@[s as int].tracks@,
                forall|k: int| 0 <= k < t ==> !clips_need((#[trigger] tracks@[k]).clips@, asset@),
            decreases tracks@.len() - t,
        {
            if some_clip_needs(&tracks[t].clips, asset) {
                assert(tracks_need(project.sequences@[s as int].tracks@, asset@));
                return true;
            }
            t = t + 1;
        }
        s = s + 1;
    }
    false
}

pub open spec fn plain_finding(
    rule: Seq<char>,
    severity: Severity,
    target: Seq<char>,
    detail: Seq<char>,
) -> FindingView {
    FindingView { rule, severity, target, detail, value: None, required: None }
}

pub open spec fn asset_state(project: Project, asset: Asset) -> Seq<FindingView> {
    one(
        if asset.path is None {
            Some(
                plain_finding(
                    "missing-asset"@,
                    Severity::Error,
                    asset.id@,
                    "'"@ + asset.name@ + "' ("@ + asset.hash@
                        + ") is not in the asset store; relink or re-import it"@,
                ),
            )
        } else {
            None
        },
    ) + one(
        if !is_referenced(project, asset.id@) {
            Some(
                plain_finding(
                    "unreferenced-asset"@,
                    Severity::Info,
                    asset.id@,
                    "'"@ + asset.name@ + "' is not used by any clip or effect"@,
                ),
            )
        } else {
            None
        },
    ) + one(
        match asset.proxy {
            Some(proxy) => if !asset.proxy_usable {
                Some(
                    plain_finding(
                        "stale-proxy"@,
                        Severity::Warning,
                        asset.id@,
                        "'"@ + asset.name@ + "' points at proxy '"@ + proxy@
                            + "', which is missing or empty; regenerate it with asset.proxy"@,
                    ),
                )
            } else {
                None
            },
            None => None,
        },
    )
}

pub open spec fn store_findings(project: Project, assets: Seq<Asset>) -> Seq<FindingView>
    decreases assets.len(),
{
    if assets.len() == 0 {
        seq![]
    } else {
        store_findings(project, assets.drop_last()) + asset_state(project, assets.last())
    }
}

fn plain(rule: &'static str, severity: Severity, target: &str, detail: String) -> (r: Option<
    Finding,
>)
    ensures
        finding_view(r) == Some(plain_finding(rule@, severity, target@, detail@)),
{
    Some(
        Finding {
            rule,
            severity,
            target: target.to_owned(),
            detail,
            value: None,
            required: None,
        },
    )
}

fn push_state(out: &mut Vec<Finding>, project: &Project, asset: &Asset)
    ensures
        views(final(out)@) == views(old(out)@) + asset_state(*project, *asset),
{
    let ghost before = views(out@);
    let id = asset.id.as_str();
    if asset.path.is_none() {
        let mut detail = "'".to_owned();
        detail.append(asset.name.as_str());
        detail.append("' (");
        detail.append(asset.hash.as_str());
        detail.append(") is not in the asset store; relink or re-import it");
        push_finding(out, plain("missing-asset", Severity::Error, id, detail));
    }
    if !referenced(project, id) {
        let mut detail = "'".to_owned();
        detail.append(asset.name.as_str());
        detail.append("' is not used by any clip or effect");
        push_finding(out, plain("unreferenced-asset", Severity::Info, id, detail));
    }
    if let Some(proxy) = &asset.proxy {
        if !asset.proxy_usable {
            let mut detail = "'".to_owned();
            detail.append(asset.name.as_str());
            detail.append("' points at proxy '");
            detail.append(proxy.as_str());
            detail.append("', which is missing or empty; regenerate it with asset.proxy");
            push_finding(out, plain("stale-proxy", Severity::Warning, id, detail));
        }
    }
    assert(views(out@) =~= before + asset_state(*project, *asset));
}

/// What is wrong with a project's assets: gone, not needed, or with a stand-in that is gone.
pub fn store_rules(project: &Project) -> (r: Vec<Finding>)
    ensures
        views(r@) == store_findings(*project, project.assets@),
{
    let mut out: Vec<Finding> = Vec::new();
    let mut i: usize = 0;
    assert(project.assets@.take(0) =~= seq![]);
    assert(views(out@) =~= seq![]);
    while i < project.assets.len()
        invariant
            i <= project.assets@.len(),
            views(out@) == store_findings(*project, project.assets@.take(i as int)),
        decreases project.assets@.len() - i,
    {
        assert(project.assets@.take(i + 1).drop_last() =~= project.assets@.take(i as int));
        push_state(&mut out, project, &project.assets[i]);
        i = i + 1;
    }
    assert(project.assets@.take(i as int) =~= project.assets@);
    out
}

proof fn lemma_chars_differ(a: char, b: char)
    requires
        a != b,
    ensures
        a as u32 != b as u32,
{
}

/// Of two clips that are linked to each other at most one speaks.
pub proof fn law_a_drift_is_reported_once(a: Seq<char>, b: Seq<char>)
    ensures
        !(text_before(a, b) && text_before(b, a)),
        a != b ==> text_before(a, b) || text_before(b, a),
    decreases a.len(),
{
    if a.len() > 0 && b.len() > 0 {
        if a[0] == b[0] {
            law_a_drift_is_reported_once(a.skip(1), b.skip(1));
            if a != b && a.skip(1) == b.skip(1) {
                assert(a =~= seq![a[0]] + a.skip(1));
                assert(b =~= seq![b[0]] + b.skip(1));
            }
        } else {
            lemma_chars_differ(a[0], b[0]);
        }
    } else if a.len() == 0 && b.len() == 0 {
        assert(a =~= b);
    }
}

} // verus!
