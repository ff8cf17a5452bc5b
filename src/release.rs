//! The text of a release: the heading of its changelog section, and the
//! version fields of the manifests that carry one.

use vstd::prelude::*;
use vstd::string::StringExecFns;
use crate::commit::{regex_is_match, regex_match};
use crate::version::PATCH_BUMP;

verus! {

/// The changelog section of a release as prepended to the changelog file:
/// a level-3 heading for a patch release and level 2 otherwise, the tag and
/// the date, then the entries, or a placeholder where there are none.
pub open spec fn release_section(flags: u8, tag: Seq<char>, date: Seq<char>, changelog: Seq<char>) -> Seq<char> {
    (if flags & PATCH_BUMP == PATCH_BUMP { "###"@ } else { "##"@ }) + " "@ + tag + " ("@ + date + ")\n\n"@
        + (if changelog.len() == 0 { "*no notable changes*\n"@ } else { changelog }) + "\n"@
}

/// The section `## tag (date)` with the changelog entries below it; `###`
/// for a patch release, and a placeholder line where there are no entries.
pub fn release_notes(flags: u8, tag: &str, date: &str, changelog: &str) -> (r: String)
    ensures
        r@ == release_section(flags, tag@, date@, changelog@),
{
    let mut r = String::new();
    if flags & PATCH_BUMP == PATCH_BUMP {
        r.append("###");
    } else {
        r.append("##");
    }
    r.append(" ");
    r.append(tag);
    r.append(" (");
    r.append(date);
    r.append(")\n\n");
    if changelog.is_empty() {
        r.append("*no notable changes*\n");
    } else {
        r.append(changelog);
    }
    r.append("\n");
    assert(r@ =~= release_section(flags, tag@, date@, changelog@));
    r
}


/// A manifest file that carries the version of the project.
#[derive(PartialEq, Eq, Structural, Clone, Copy, Debug)]
pub enum Manifest {
    /// A Helm chart, with an `appVersion:` line.
    Helm,
    /// A `package.json`, with a `"version":` field.
    Npm,
    /// A `composer.json`, with a `"version":` field.
    Composer,
}

/// The pattern of the version line of a Helm chart.
pub const HELM_VERSION_PATTERN: &'static str = r#"appVersion:\s*(?P<version>.*)"#;

/// The pattern of the version field of a JSON manifest.
pub const JSON_VERSION_PATTERN: &'static str = r#"version":\s*"(?P<version>.*)"#;

/// The pattern of the version line of a manifest.
pub open spec fn version_pattern(m: Manifest) -> Seq<char> {
    match m {
        Manifest::Helm => HELM_VERSION_PATTERN@,
        _ => JSON_VERSION_PATTERN@,
    }
}

/// The text that takes the place of the version line of a manifest.
pub open spec fn version_line(m: Manifest, tag: Seq<char>) -> Seq<char> {
    match m {
        Manifest::Helm => "appVersion: "@ + tag,
        _ => "version\": \""@ + tag + "\""@,
    }
}

/// The text with the first match of `pattern` replaced by `rep`.
pub uninterp spec fn regex_replaced(pattern: Seq<char>, text: Seq<char>, rep: Seq<char>) -> Seq<char>;

/// Relies on `regex::Regex::new` and `regex::Regex::replace`: the leftmost
/// match of the pattern replaced by `rep`, which depends on the three
/// arguments alone; the text unchanged where the pattern does not compile.
#[verifier::external_body]
fn regex_replace(pattern: &str, text: &str, rep: &str) -> (r: String)
    ensures
        r@ == regex_replaced(pattern@, text@, rep@),
{
    match regex::Regex::new(pattern) {
        Ok(re) => re.replace(text, rep).into_owned(),
        Err(_) => text.to_string(),
    }
}

/// Where a manifest lies when no configuration names its path.
pub open spec fn default_manifest_path(m: Manifest) -> Seq<char> {
    match m {
        Manifest::Helm => ".helm/Chart.yaml"@,
        Manifest::Npm => "package.json"@,
        Manifest::Composer => "composer.json"@,
    }
}

impl Manifest {
    /// The path of the manifest where no configuration names one.
    pub fn default_path(&self) -> (r: &'static str)
        ensures
            r@ == default_manifest_path(*self),
    {
        match self {
            Manifest::Helm => ".helm/Chart.yaml",
            Manifest::Npm => "package.json",
            Manifest::Composer => "composer.json",
        }
    }

    fn pattern(&self) -> (r: &'static str)
        ensures
            r@ == version_pattern(*self),
    {
        match self {
            Manifest::Helm => HELM_VERSION_PATTERN,
            _ => JSON_VERSION_PATTERN,
        }
    }
}

/// The manifest text `content` with its version line set to `tag`; `None`
/// where the text has no version line.
pub fn set_manifest_version(m: Manifest, content: &str, tag: &str) -> (r: Option<String>)
    ensures
        !regex_is_match(version_pattern(m), content@) ==> r is None,
        regex_is_match(version_pattern(m), content@) ==> r is Some && r->0@ == regex_replaced(
            version_pattern(m),
            content@,
            version_line(m, tag@),
        ),
{
    let pattern = m.pattern();
    if !regex_match(pattern, content) {
        return None;
    }
    let mut rep = String::new();
    match m {
        Manifest::Helm => {
            rep.append("appVersion: ");
            rep.append(tag);
        },
        _ => {
            rep.append("version\": \"");
            rep.append(tag);
            rep.append("\"");
        },
    }
    assert(rep@ =~= version_line(m, tag@));
    Some(regex_replace(pattern, content, rep.as_str()))
}

/// How the configuration names the files of one manifest kind.
pub enum PathSetting {
    /// Not named: no file.
    Absent,
    /// One path.
    Single(String),
    /// A list whose string entries are paths; other entries are ignored.
    List(Vec<Option<String>>),
    /// Neither a path nor a list.
    Invalid,
}

/// The string entries of a list, in order.
pub open spec fn present_paths(v: Seq<Option<String>>) -> Seq<Seq<char>>
    decreases v.len(),
{
    if v.len() == 0 {
        Seq::empty()
    } else {
        match v.last() {
            Some(p) => present_paths(v.drop_last()).push(p@),
            None => present_paths(v.drop_last()),
        }
    }
}

/// The paths of the files of one manifest kind; `None` where the setting
/// is invalid.
pub fn manifest_paths(setting: &PathSetting) -> (r: Option<Vec<String>>)
    ensures
        match setting {
            PathSetting::Invalid => r is None,
            PathSetting::Absent => r is Some && r->0@.len() == 0,
            PathSetting::Single(p) => r is Some && r->0@.len() == 1 && r->0@[0]@ == p@,
            PathSetting::List(v) => r is Some && r->0@.map_values(|s: String| s@) == present_paths(v@),
        },
{
    match setting {
        PathSetting::Invalid => None,
        PathSetting::Absent => Some(Vec::new()),
        PathSetting::Single(p) => {
            let mut r = Vec::new();
            r.push(p.clone());
            Some(r)
        },
        PathSetting::List(v) => {
            let mut r: Vec<String> = Vec::new();
            let mut i: usize = 0;
            while i < v.len()
                invariant
                    i <= v.len(),
                    r@.map_values(|s: String| s@) == present_paths(v@.take(i as int)),
                decreases v.len() - i,
            {
                assert(v@.take(i + 1).drop_last() =~= v@.take(i as int));
                assert(v@.take(i + 1).last() == v@[i as int]);
                let ghost before = r@;
                match &v[i] {
                    Some(p) => {
                        r.push(p.clone());
                        assert(r@.map_values(|s: String| s@) =~= before.map_values(|s: String| s@).push(p@));
                    },
                    None => {},
                }
                i = i + 1;
            }
            assert(v@.take(i as int) =~= v@);
            Some(r)
        },
    }
}

} // verus!
