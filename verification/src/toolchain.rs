//! The external tools a machine has, and what they can do.
//!
//! Finding the binaries and running them is the caller's work; this module reads what they
//! print and answers questions about it.

use crate::text::{
    among, bytes_in, chars_of, contains_char, find_text, lines_of, same, slice_of, string_of,
    trimmed, words_of,
};
use crate::text::{lemma_strings_push, strings};
use vstd::prelude::*;

verus! {

/// Resolved external tools plus the capabilities they have on this machine.
#[derive(Clone, Debug)]
pub struct Toolchain {
    ffmpeg: String,
    ffprobe: String,
    version: String,
    encoders: Vec<String>,
    filters: Vec<String>,
}

/// What a diagnosis prints.
#[derive(Clone, Debug)]
pub struct ToolReport {
    pub ffmpeg: String,
    pub ffprobe: String,
    pub version: String,
    pub hardware_encoders: Vec<String>,
    pub software_encoders: Vec<String>,
}

/// Encoders worth reporting: the platform-accelerated ones on each supported system.
pub open spec fn hardware() -> Seq<Seq<char>> {
    seq![
        "h264_videotoolbox"@,
        "hevc_videotoolbox"@,
        "prores_videotoolbox"@,
        "h264_nvenc"@,
        "hevc_nvenc"@,
        "av1_nvenc"@,
        "h264_vaapi"@,
        "hevc_vaapi"@,
        "h264_qsv"@,
    ]
}

/// The software encoders a render may choose from.
pub open spec fn software() -> Seq<Seq<char>> {
    seq![
        "libx264"@,
        "libx265"@,
        "libsvtav1"@,
        "libaom-av1"@,
        "libvpx-vp9"@,
        "prores_ks"@,
        "aac"@,
        "libopus"@,
        "pcm_s16le"@,
    ]
}

pub fn hw_encoders() -> (r: Vec<&'static str>)
    ensures
        r@.map_values(|s: &'static str| s@) == hardware(),
{
    let r = vec![
        "h264_videotoolbox",
        "hevc_videotoolbox",
        "prores_videotoolbox",
        "h264_nvenc",
        "hevc_nvenc",
        "av1_nvenc",
        "h264_vaapi",
        "hevc_vaapi",
        "h264_qsv",
    ];
    assert(r@.map_values(|s: &'static str| s@) =~= hardware());
    r
}

pub fn sw_encoders() -> (r: Vec<&'static str>)
    ensures
        r@.map_values(|s: &'static str| s@) == software(),
{
    let r = vec![
        "libx264",
        "libx265",
        "libsvtav1",
        "libaom-av1",
        "libvpx-vp9",
        "prores_ks",
        "aac",
        "libopus",
        "pcm_s16le",
    ];
    assert(r@.map_values(|s: &'static str| s@) =~= software());
    r
}

/// Those of `names` that `have` holds, in the order of `names`.
pub open spec fn kept(names: Seq<Seq<char>>, have: Seq<Seq<char>>) -> Seq<Seq<char>> {
    names.filter(|name: Seq<char>| have.contains(name))
}

proof fn lemma_kept_step(names: Seq<Seq<char>>, have: Seq<Seq<char>>, n: int)
    requires
        0 <= n < names.len(),
    ensures
        kept(names.take(n + 1), have) == if have.contains(names[n]) {
            kept(names.take(n), have).push(names[n])
        } else {
            kept(names.take(n), have)
        },
{
    reveal(Seq::filter);
    assert(names.take(n + 1).drop_last() =~= names.take(n));
}

fn keep(names: &Vec<&'static str>, have: &Vec<String>) -> (r: Vec<String>)
    ensures
        strings(r@) == kept(names@.map_values(|s: &'static str| s@), strings(have@)),
{
    let ghost wanted = names@.map_values(|s: &'static str| s@);
    let mut out: Vec<String> = Vec::new();
    let mut i: usize = 0;
    proof {
        reveal(Seq::filter);
        assert(wanted.take(0) =~= seq![]);
        assert(strings(out@) =~= seq![]);
    }
    while i < names.len()
        invariant
            i <= names@.len(),
            wanted == names@.map_values(|s: &'static str| s@),
            strings(out@) == kept(wanted.take(i as int), strings(have@)),
        decreases names@.len() - i,
    {
        proof {
            lemma_kept_step(wanted, strings(have@), i as int);
        }
        if among(have, names[i]) {
            let name = names[i].to_owned();
            proof {
                lemma_strings_push(out@, name);
            }
            out.push(name);
        }
        i = i + 1;
    }
    assert(wanted.take(i as int) =~= wanted);
    out
}

impl Toolchain {
    pub closed spec fn spec_ffmpeg(self) -> Seq<char> {
        self.ffmpeg@
    }

    pub closed spec fn spec_ffprobe(self) -> Seq<char> {
        self.ffprobe@
    }

    pub closed spec fn spec_version(self) -> Seq<char> {
        self.version@
    }

    pub closed spec fn spec_encoders(self) -> Seq<Seq<char>> {
        strings(self.encoders@)
    }

    pub closed spec fn spec_filters(self) -> Seq<Seq<char>> {
        strings(self.filters@)
    }

    /// A toolchain from what discovery found and what the binaries printed: the first
    /// line of the version banner, and the two capability listings.
    pub fn from_listings(
        ffmpeg: String,
        ffprobe: String,
        banner: &str,
        encoders: &str,
        filters: &str,
    ) -> (r: Toolchain)
        ensures
            r.spec_ffmpeg() == ffmpeg@,
            r.spec_ffprobe() == ffprobe@,
            r.spec_version() == version_of(banner@),
            r.spec_encoders() == names_in(encoders@),
            r.spec_filters() == names_in(filters@),
    {
        Toolchain {
            ffmpeg,
            ffprobe,
            version: version_in(banner),
            encoders: list_names(encoders),
            filters: list_names(filters),
        }
    }

    pub fn ffmpeg(&self) -> (r: &str)
        ensures
            r@ == self.spec_ffmpeg(),
    {
        self.ffmpeg.as_str()
    }

    pub fn ffprobe(&self) -> (r: &str)
        ensures
            r@ == self.spec_ffprobe(),
    {
        self.ffprobe.as_str()
    }

    /// `ffmpeg version n9.0.1`: the banner up to its version token, where it has one.
    pub fn version(&self) -> (r: &str)
        ensures
            r@ == self.spec_version(),
    {
        self.version.as_str()
    }

    pub fn encoders(&self) -> (r: &Vec<String>)
        ensures
            strings(r@) == self.spec_encoders(),
    {
        &self.encoders
    }

    pub fn has_encoder(&self, name: &str) -> (r: bool)
        ensures
            r == self.spec_encoders().contains(name@),
    {
        among(&self.encoders, name)
    }

    pub fn has_filter(&self, name: &str) -> (r: bool)
        ensures
            r == self.spec_filters().contains(name@),
    {
        among(&self.filters, name)
    }

    /// The encoders of the two published lists that this machine has.
    pub fn report(&self) -> (r: ToolReport)
        ensures
            r.ffmpeg@ == self.spec_ffmpeg(),
            r.ffprobe@ == self.spec_ffprobe(),
            r.version@ == self.spec_version(),
            strings(r.hardware_encoders@) == kept(hardware(), self.spec_encoders()),
            strings(r.software_encoders@) == kept(software(), self.spec_encoders()),
    {
        let hw = hw_encoders();
        let sw = sw_encoders();
        ToolReport {
            ffmpeg: self.ffmpeg.clone(),
            ffprobe: self.ffprobe.clone(),
            version: self.version.clone(),
            hardware_encoders: keep(&hw, &self.encoders),
            software_encoders: keep(&sw, &self.encoders),
        }
    }

    /// Every encoder of the published lists that this machine has, software first.
    pub fn available(&self) -> (r: Vec<String>)
        ensures
            strings(r@) == kept(software() + hardware(), self.spec_encoders()),
    {
        let mut names = sw_encoders();
        let mut hw = hw_encoders();
        names.append(&mut hw);
        assert(names@.map_values(|s: &'static str| s@) =~= software() + hardware());
        keep(&names, &self.encoders)
    }
}

/// The first line of a banner, without white space around it.
pub open spec fn first_line_of(banner: Seq<char>) -> Seq<char> {
    let all = crate::text::lines(banner);
    if all.len() == 0 {
        seq![]
    } else {
        crate::text::trim(all[0])
    }
}

/// The version that a banner states: its first line up to the version token, or all of that line
/// where none can be recognised in it.
pub open spec fn version_of(banner: Seq<char>) -> Seq<char> {
    let parts = crate::text::words(first_line_of(banner));
    if parts.len() >= 3 && parts[1] == "version"@ {
        parts[0] + " version "@ + parts[2]
    } else {
        first_line_of(banner)
    }
}

fn version_in(banner: &str) -> (r: String)
    ensures
        r@ == version_of(banner@),
{
    let chars = chars_of(banner);
    let all = lines_of(&chars);
    if all.len() == 0 {
        assert(crate::text::words(seq![]).len() == 0);
        return String::new();
    }
    assert(crate::text::texts(all@)[0] == all@[0]@);
    let line = trimmed(&all[0]);
    let parts = words_of(&line);
    let ghost views = crate::text::words(line@);
    if parts.len() >= 3 {
        assert(views[0] == parts@[0]@ && views[1] == parts@[1]@ && views[2] == parts@[2]@);
        if same(string_of(&parts[1]).as_str(), "version") {
            let mut out = string_of(&parts[0]);
            out.append(" version ");
            out.append(string_of(&parts[2]).as_str());
            return out;
        }
    }
    string_of(&line)
}

/// The name that a line of a capability listing declares. The format is
/// `FLAGS name description`; flag columns are short and never contain `=`, which tells
/// them from wrapped description lines.
pub open spec fn name_in(line: Seq<char>) -> Option<Seq<char>> {
    let parts = crate::text::words(line);
    if parts.len() < 2 || crate::text::byte_len(parts[0]) > 8 || crate::text::has_char(parts[0], '=') {
        None
    } else {
        Some(parts[1])
    }
}

/// What follows the rule of dashes that ends a listing's header, or all of it.
pub open spec fn listing_body(text: Seq<char>) -> Seq<char> {
    if crate::text::occurs(text, "------"@) {
        let at = choose|at: int| crate::text::first_at(text, "------"@, at);
        text.skip(at + 6)
    } else {
        text
    }
}

/// The names that some lines declare, in order.
pub open spec fn names_of(listing: Seq<Seq<char>>) -> Seq<Seq<char>>
    decreases listing.len(),
{
    if listing.len() == 0 {
        seq![]
    } else {
        let before = names_of(listing.drop_last());
        match name_in(listing.last()) {
            Some(name) => before.push(name),
            None => before,
        }
    }
}

/// Every name that a capability listing declares.
pub open spec fn names_in(text: Seq<char>) -> Seq<Seq<char>> {
    names_of(crate::text::lines(listing_body(text)))
}

/// Parses the name column out of an encoder or filter listing.
pub fn list_names(text: &str) -> (r: Vec<String>)
    ensures
        strings(r@) == names_in(text@),
{
    let chars = chars_of(text);
    let body = match find_text(&chars, "------") {
        Some(at) => {
            proof {
                reveal_strlit("------");
                let other = choose|k: int| crate::text::first_at(text@, "------"@, k);
                assert(crate::text::stands_at(text@, "------"@, at as int));
                assert(crate::text::first_at(text@, "------"@, other));
                assert(other == at) by {
                    if other < at {
                        assert(!crate::text::stands_at(text@, "------"@, other));
                    } else if at < other {
                        assert(!crate::text::stands_at(text@, "------"@, at as int));
                    }
                }
            }
            let n: usize = chars.len();
            let rest = slice_of(&chars, at + 6, n);
            assert(rest@ =~= text@.skip(at + 6));
            rest
        },
        None => chars,
    };
    assert(body@ == listing_body(text@));
    let listing = lines_of(&body);
    let ghost all = crate::text::texts(listing@);
    let mut out: Vec<String> = Vec::new();
    let mut i: usize = 0;
    assert(all.take(0) =~= seq![]);
    assert(strings(out@) =~= seq![]);
    while i < listing.len()
        invariant
            i <= listing@.len(),
            all == crate::text::texts(listing@),
            strings(out@) == names_of(all.take(i as int)),
        decreases listing@.len() - i,
    {
        proof {
            assert(all.take(i + 1).drop_last() =~= all.take(i as int));
            assert(all.take(i + 1).last() == listing@[i as int]@);
        }
        let parts = words_of(&listing[i]);
        let ghost words = crate::text::texts(parts@);
        assert(words == crate::text::words(all[i as int]));
        if parts.len() >= 2 {
            assert(words[0] == parts@[0]@ && words[1] == parts@[1]@);
            let flags = string_of(&parts[0]);
            if bytes_in(flags.as_str()) <= 8 && !contains_char(&parts[0], '=') {
                let name = string_of(&parts[1]);
                proof {
                    lemma_strings_push(out@, name);
                }
                out.push(name);
            }
        }
        i = i + 1;
    }
    assert(all.take(i as int) =~= all);
    out
}

} // verus!
