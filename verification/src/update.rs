//! Upgrading the command-line tool: which release to ask for, whether the
//! running version is the latest, and which download fits the platform.

use vstd::prelude::*;
use crate::agent::leading_repeats_end;
use crate::agent::strip_leading;
use crate::text::chars_of;
use crate::text::concat2;
use crate::text::str_eq;
use crate::text::string_from_chars;

verus! {

/// The address of the releases of the project.
pub open spec fn releases_api() -> Seq<char> {
    "https://api.github.com/repos/zAxCoder/OpenZax/releases"@
}

/// Where the release to install is described: the tagged release of the
/// version asked for, else the latest.
pub open spec fn release_address(version: Option<Seq<char>>) -> Seq<char> {
    match version {
        Some(v) => releases_api() + "/tags/v"@ + v,
        None => releases_api() + "/latest"@,
    }
}

/// Writes where the release to install is described.
pub fn release_url(version: Option<&str>) -> (r: String)
    ensures
        r@ == release_address(
            match version {
                Some(v) => Some(v@),
                None => None,
            },
        ),
{
    match version {
        Some(v) => {
            let mut s = String::from_str("https://api.github.com/repos/zAxCoder/OpenZax/releases/tags/v");
            s.append(v);
            proof {
                reveal_strlit("https://api.github.com/repos/zAxCoder/OpenZax/releases/tags/v");
                reveal_strlit("https://api.github.com/repos/zAxCoder/OpenZax/releases");
                reveal_strlit("/tags/v");
                assert("https://api.github.com/repos/zAxCoder/OpenZax/releases/tags/v"@ =~= releases_api()
                    + "/tags/v"@);
            }
            s
        },
        None => {
            let s = String::from_str("https://api.github.com/repos/zAxCoder/OpenZax/releases/latest");
            proof {
                reveal_strlit("https://api.github.com/repos/zAxCoder/OpenZax/releases/latest");
                reveal_strlit("https://api.github.com/repos/zAxCoder/OpenZax/releases");
                reveal_strlit("/latest");
                assert("https://api.github.com/repos/zAxCoder/OpenZax/releases/latest"@ =~= releases_api()
                    + "/latest"@);
            }
            s
        },
    }
}

/// Whether the latest release's tag names the running version, with or
/// without the leading `v`.
pub fn is_latest(latest: &str, current: &str) -> (b: bool)
    ensures
        b == (latest@ == "v"@ + current@ || latest@ == current@),
{
    let tagged = concat2("v", current);
    str_eq(latest, tagged.as_str()) || str_eq(latest, current)
}

/// The note shown when a newer release is tagged: the running version, an
/// arrow and the tag.
pub open spec fn update_note(tag: Seq<char>, current: Seq<char>) -> Option<Seq<char>> {
    if tag != "v"@ + current {
        Some("v"@ + current + " → "@ + tag + " available"@)
    } else {
        None
    }
}

/// Tells whether a release tag differs from the running version, and how.
pub fn update_notice(tag: &str, current: &str) -> (r: Option<String>)
    ensures
        match r {
            Some(n) => update_note(tag@, current@) == Some(n@),
            None => update_note(tag@, current@).is_none(),
        },
{
    let tagged = concat2("v", current);
    if str_eq(tag, tagged.as_str()) {
        None
    } else {
        let mut s = tagged;
        s.append(" → ");
        s.append(tag);
        s.append(" available");
        Some(s)
    }
}

/// The version a tag names: the tag without its leading `v`s.
pub fn tag_version(tag: &str) -> (r: String)
    ensures
        r@ == strip_leading(tag@, "v"@),
{
    let cs = chars_of(tag);
    let v = chars_of("v");
    proof {
        reveal_strlit("v");
    }
    let start = leading_repeats_end(cs.as_slice(), v.as_slice());
    let mut out: Vec<char> = Vec::new();
    let mut i: usize = start;
    while i < cs.len()
        invariant
            start <= i <= cs@.len(),
            out@ == cs@.subrange(start as int, i as int),
        decreases cs@.len() - i,
    {
        out.push(cs[i]);
        i = i + 1;
        assert(out@ =~= cs@.subrange(start as int, i as int));
    }
    string_from_chars(out.as_slice())
}

/// Whether a tagged release differs from the running version, once the
/// tag's leading `v`s are dropped.
pub fn needs_update(tag: &str, current: &str) -> (b: bool)
    ensures
        b == (strip_leading(tag@, "v"@) != current@),
{
    let v = tag_version(tag);
    !str_eq(v.as_str(), current)
}

/// The operating systems releases are built for.
#[derive(Clone, Copy, Debug, PartialEq, Eq, Structural)]
pub enum Platform {
    Windows,
    MacOs,
    Linux,
}

/// The release archive for a platform.
pub open spec fn asset_for(p: Platform) -> Seq<char> {
    match p {
        Platform::Windows => "openzax-windows-x86_64.zip"@,
        Platform::MacOs => "openzax-macos-aarch64.tar.gz"@,
        Platform::Linux => "openzax-linux-x86_64.tar.gz"@,
    }
}

/// Names the release archive for a platform.
pub fn asset_name(p: Platform) -> (s: &'static str)
    ensures
        s@ == asset_for(p),
{
    match p {
        Platform::Windows => "openzax-windows-x86_64.zip",
        Platform::MacOs => "openzax-macos-aarch64.tar.gz",
        Platform::Linux => "openzax-linux-x86_64.tar.gz",
    }
}

/// Names the program file for a platform.
pub fn exe_name(p: Platform) -> (s: &'static str)
    ensures
        s@ == (if p == Platform::Windows {
            "openzax.exe"@
        } else {
            "openzax"@
        }),
{
    match p {
        Platform::Windows => "openzax.exe",
        _ => "openzax",
    }
}

/// The download address of the first asset of a name that has one.
pub open spec fn download_of(assets: Seq<(Seq<char>, Option<Seq<char>>)>, name: Seq<char>) -> Option<Seq<char>>
    decreases assets.len(),
{
    if assets.len() == 0 {
        None
    } else if assets[0].0 == name && assets[0].1.is_some() {
        assets[0].1
    } else {
        download_of(assets.drop_first(), name)
    }
}

/// The texts of release assets, given as name and download address.
pub open spec fn asset_views(assets: Seq<(String, Option<String>)>) -> Seq<(Seq<char>, Option<Seq<char>>)> {
    assets.map_values(
        |a: (String, Option<String>)|
            (
                a.0@,
                match a.1 {
                    Some(u) => Some(u@),
                    None => None,
                },
            ),
    )
}

/// Finds where to download the archive of a name among a release's assets.
pub fn find_download(assets: &[(String, Option<String>)], name: &str) -> (r: Option<String>)
    ensures
        match r {
            Some(u) => download_of(asset_views(assets@), name@) == Some(u@),
            None => download_of(asset_views(assets@), name@).is_none(),
        },
{
    let ghost all = asset_views(assets@);
    let mut i: usize = 0;
    assert(all.skip(0) =~= all);
    while i < assets.len()
        invariant
            i <= assets@.len(),
            all == asset_views(assets@),
            download_of(all.skip(i as int), name@) == download_of(all, name@),
        decreases assets@.len() - i,
    {
        let ghost rest = all.skip(i as int);
        assert(rest[0] == all[i as int]);
        let a = &assets[i];
        if str_eq(a.0.as_str(), name) {
            match &a.1 {
                Some(u) => {
                    return Some(u.clone());
                },
                None => {},
            }
        }
        assert(rest.drop_first() =~= all.skip(i + 1));
        i = i + 1;
    }
    None
}

} // verus!
