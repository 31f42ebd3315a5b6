//! What is told of a clip that is handed over, and of a file that is another than it was.

use crate::project::{Clip, Effect, Probe, Project, Source};
use crate::scene_ops::{audio_differences, differences, video_differences};
use crate::timeline::{
    clip_asset, effect_warnings, lost_features, resource_of, retime_loss, source_error,
    source_warning, Resource,
};
use crate::title_laws::warns;
use vstd::prelude::*;

verus! {

// ---------------------------------------------------------------------------
// Features
// ---------------------------------------------------------------------------

/// One more effect is one more warning exactly if it is switched on, and it is about the clip.
pub proof fn law_every_enabled_effect_is_told(
    clip: Clip,
    effects: Seq<Effect>,
    effect: Effect,
    format: Seq<char>,
)
    ensures
        effect_warnings(clip, Seq::<Effect>::empty(), format).len() == 0,
        effect.enabled ==> effect_warnings(clip, effects.push(effect), format).len()
            == effect_warnings(clip, effects, format).len() + 1 && effect_warnings(
            clip,
            effects.push(effect),
            format,
        ).last().target == clip.spec_label() && effect_warnings(
            clip,
            effects.push(effect),
            format,
        ).last().code == "effect-not-exported"@,
        !effect.enabled ==> effect_warnings(clip, effects.push(effect), format)
            == effect_warnings(clip, effects, format),
{
    assert(effects.push(effect).drop_last() =~= effects);
}

/// A clip hands over everything exactly if it has no effect that is switched on, no keyframes, no
/// place of its own and no blend mode; each of those is told.
pub proof fn law_a_plain_clip_loses_nothing(clip: Clip, format: Seq<char>)
    ensures
        clip.keyframes > 0 ==> warns(
            lost_features(clip, format),
            "keyframes-not-exported"@,
            clip.spec_label(),
        ),
        clip.transformed ==> warns(
            lost_features(clip, format),
            "transform-not-exported"@,
            clip.spec_label(),
        ),
        clip.blend is Some ==> warns(
            lost_features(clip, format),
            "blend-not-exported"@,
            clip.spec_label(),
        ),
        lost_features(clip, format).len() == effect_warnings(clip, clip.effects@, format).len() + (
        if clip.keyframes > 0 {
            1int
        } else {
            0
        }) + (if clip.transformed {
            1int
        } else {
            0
        }) + if clip.blend is Some {
            1int
        } else {
            0
        },
{
    let all = lost_features(clip, format);
    let e = effect_warnings(clip, clip.effects@, format).len() as int;
    let k: int = if clip.keyframes > 0 {
        1
    } else {
        0
    };
    let t: int = if clip.transformed {
        1
    } else {
        0
    };
    if clip.keyframes > 0 {
        assert(all[e].code == "keyframes-not-exported"@);
    }
    if clip.transformed {
        assert(all[e + k].code == "transform-not-exported"@);
    }
    if clip.blend is Some {
        assert(all[e + k + t].code == "blend-not-exported"@);
    }
}

/// Another speed is told exactly if the clip plays backwards or not at one to one.
pub proof fn law_another_speed_is_told(clip: Clip, format: Seq<char>)
    ensures
        retime_loss(clip, format) is Some <==> clip.reverse || clip.speed.num != clip.speed.den,
        retime_loss(clip, format) matches Some(told) ==> told.target == clip.spec_label()
            && told.code == "speed-not-exported"@,
{
}

// ---------------------------------------------------------------------------
// Sources
// ---------------------------------------------------------------------------

/// A clip shows the file of its asset, its own color, or nothing where only this project can draw it;
/// the last is told.
pub proof fn law_a_clip_shows_its_source(project: Project, clip: Clip)
    ensures
        clip.source matches Source::Color { color } ==> (resource_of(
            project,
            clip,
        ) matches Resource::Color(shown) && shown == color),
        clip.source is Title || clip.source is Sequence || clip.source is Generator ==> (resource_of(
            project,
            clip,
        ) matches Resource::Color(shown) && shown.a == 0),
        clip.source is Asset || clip.source is Image ==> (clip_asset(project, clip) matches Some(
            asset,
        ) ==> resource_of(project, clip) matches Resource::File { asset: shown } && *shown
            == asset),
        source_warning(project, clip) is Some <==> clip.source is Title || clip.source is Sequence
            || clip.source is Generator,
        source_warning(project, clip) matches Some(told) ==> told.target == clip.spec_label(),
        source_error(project, clip) is Some <==> (clip.source is Asset || clip.source is Image) && (
        clip_asset(project, clip) matches Some(asset) ==> asset.path is None),
{
}

// ---------------------------------------------------------------------------
// Files that changed
// ---------------------------------------------------------------------------

/// A file is as it was known exactly if nothing is told: its length, its pictures' size, rate and
/// codec, and its sound's rate and channels are the same, and it has neither stream more nor less.
pub proof fn law_a_changed_file_is_told(stored: Probe, actual: Probe)
    ensures
        differences(stored, actual).len() == 0 <==> {
            &&& stored.duration == actual.duration
            &&& stored.video is Some <==> actual.video is Some
            &&& stored.audio is Some <==> actual.audio is Some
            &&& stored.video is Some && actual.video is Some ==> {
                let (a, b) = (stored.video->0, actual.video->0);
                a.size@[0] == b.size@[0] && a.size@[1] == b.size@[1] && a.fps == b.fps && a.codec@
                    == b.codec@
            }
            &&& stored.audio is Some && actual.audio is Some ==> stored.audio->0.rate
                == actual.audio->0.rate && stored.audio->0.channels == actual.audio->0.channels
        },
{
}

/// Each way in which a file changed is told of its own.
pub proof fn law_each_change_of_a_file_is_told(stored: Probe, actual: Probe)
    ensures
        differences(stored, actual).len() == (if stored.duration != actual.duration {
            1int
        } else {
            0
        }) + video_differences(stored, actual).len() + audio_differences(stored, actual).len(),
        stored.video is Some && actual.video is Some ==> video_differences(stored, actual).len()
            == (if stored.video->0.size@[0] != actual.video->0.size@[0] || stored.video->0.size@[1]
            != actual.video->0.size@[1] {
            1int
        } else {
            0
        }) + (if stored.video->0.fps != actual.video->0.fps {
            1int
        } else {
            0
        }) + if stored.video->0.codec@ != actual.video->0.codec@ {
            1int
        } else {
            0
        },
{
}

} // verus!
