//! Data model: version values, dependency references, and the plain shapes
//! of the remote listing responses.

use crate::text::{
    contains_seq, contains_str, dec_str, find_with_prefix, first_prefix_index, parse_u32_or_default,
    parse_u32_or_zero, push_char, split_on, split_str, splitn_on, splitn_str, starts_with_seq,
    strip_prefix_str, without_chars, without_chars_str,
};
use vstd::prelude::*;

verus! {

/// A three-component version number. A component can be absent (the source
/// string had fewer than three dot-separated segments); an absent component
/// sorts below every present one.
#[derive(Debug, Clone, Copy, PartialEq, Eq, PartialOrd, Ord, Hash)]
pub struct PackageVersion {
    pub major: Option<u32>,
    pub minor: Option<u32>,
    pub patch: Option<u32>,
}

/// Order on one optional component: absent sorts lowest, present components
/// compare numerically.
pub open spec fn opt_component_le(a: Option<u32>, b: Option<u32>) -> bool {
    match (a, b) {
        (Option::None, _) => true,
        (Option::Some(_), Option::None) => false,
        (Option::Some(x), Option::Some(y)) => x <= y,
    }
}

/// Total order on versions: compare major, then minor, then patch.
pub open spec fn version_le(a: PackageVersion, b: PackageVersion) -> bool {
    if a.major != b.major {
        opt_component_le(a.major, b.major)
    } else if a.minor != b.minor {
        opt_component_le(a.minor, b.minor)
    } else {
        opt_component_le(a.patch, b.patch)
    }
}

pub open spec fn version_lt(a: PackageVersion, b: PackageVersion) -> bool {
    version_le(a, b) && a != b
}

impl PackageVersion {
    pub fn new(major: Option<u32>, minor: Option<u32>, patch: Option<u32>) -> (v: Self)
        ensures
            v.major == major,
            v.minor == minor,
            v.patch == patch,
    {
        Self { major, minor, patch }
    }

    /// Decides `version_le(self, other)`.
    pub fn le(&self, other: &Self) -> (r: bool)
        ensures
            r == version_le(*self, *other),
    {
        if self.major != other.major {
            opt_le(self.major, other.major)
        } else if self.minor != other.minor {
            opt_le(self.minor, other.minor)
        } else {
            opt_le(self.patch, other.patch)
        }
    }

    /// Decides `version_lt(self, other)`.
    pub fn lt(&self, other: &Self) -> (r: bool)
        ensures
            r == version_lt(*self, *other),
    {
        self.le(other) && !(self.major == other.major && self.minor == other.minor
            && self.patch == other.patch)
    }
}

fn opt_le(a: Option<u32>, b: Option<u32>) -> (r: bool)
    ensures
        r == opt_component_le(a, b),
{
    match (a, b) {
        (Option::None, _) => true,
        (Option::Some(_), Option::None) => false,
        (Option::Some(x), Option::Some(y)) => x <= y,
    }
}

/// `version_le` is a total order: reflexive, transitive, antisymmetric, and
/// any two versions are comparable.
pub proof fn lemma_version_le_total_order(a: PackageVersion, b: PackageVersion, c: PackageVersion)
    ensures
        version_le(a, a),
        version_le(a, b) && version_le(b, c) ==> version_le(a, c),
        version_le(a, b) && version_le(b, a) ==> a == b,
        version_le(a, b) || version_le(b, a),
{
}

/// One component of the display form: the numeral of a present component,
/// the literal `?` for an absent one.
pub open spec fn opt_component_display(c: Option<u32>) -> Seq<char> {
    match c {
        Option::Some(n) => dec_str(n as nat),
        Option::None => seq!['?'],
    }
}

/// The display form `{major}.{minor}.{patch}` of a version.
pub open spec fn version_display(v: PackageVersion) -> Seq<char> {
    opt_component_display(v.major) + seq!['.'] + opt_component_display(v.minor) + seq!['.']
        + opt_component_display(v.patch)
}

impl PackageVersion {
    /// Renders the version, an absent component as `?`.
    pub fn to_string(&self) -> (r: String)
        ensures
            r@ == version_display(*self),
    {
        let mut out = String::new();
        push_opt_component(&mut out, self.major);
        push_char(&mut out, '.');
        push_opt_component(&mut out, self.minor);
        push_char(&mut out, '.');
        push_opt_component(&mut out, self.patch);
        proof {
            assert(out@ =~= version_display(*self));
        }
        out
    }
}

fn push_opt_component(out: &mut String, c: Option<u32>)
    ensures
        final(out)@ == old(out)@ + opt_component_display(c),
{
    match c {
        Option::Some(n) => crate::text::push_u32_decimal(out, n),
        Option::None => {
            let ghost prev = out@;
            push_char(out, '?');
            proof {
                assert(out@ =~= prev + seq!['?']);
            }
        },
    }
}

/// A repository of the scanned project, as the listing names it.
#[derive(Debug)]
pub struct ProjectRepo {
    pub slug: String,
}

impl Clone for ProjectRepo {
    fn clone(&self) -> (r: Self)
        ensures
            r == *self,
    {
        ProjectRepo { slug: self.slug.clone() }
    }
}

impl View for ProjectRepo {
    type V = Seq<char>;

    open spec fn view(&self) -> Seq<char> {
        self.slug@
    }
}

impl DeepView for ProjectRepo {
    type V = Seq<char>;

    open spec fn deep_view(&self) -> Seq<char> {
        self.slug@
    }
}

/// One page of the repository listing.
#[derive(Debug)]
pub struct ProjectReposResponse {
    pub is_last_page: bool,
    pub values: Vec<ProjectRepo>,
}

/// One page of the file-path listing of a repository.
#[derive(Debug)]
pub struct RepoFilesResponse {
    pub is_last_page: bool,
    pub values: Vec<String>,
}

/// The content of one file, as the remote source delivers it: line by line.
#[derive(Debug)]
pub struct RepoFileContentResponse {
    pub lines: Vec<RepoFileContentLine>,
}

/// One line of a fetched file.
#[derive(Debug)]
pub struct RepoFileContentLine {
    pub text: String,
}

impl Clone for RepoFileContentLine {
    fn clone(&self) -> (r: Self)
        ensures
            r == *self,
    {
        RepoFileContentLine { text: self.text.clone() }
    }
}

impl View for RepoFileContentLine {
    type V = Seq<char>;

    open spec fn view(&self) -> Seq<char> {
        self.text@
    }
}

impl DeepView for RepoFileContentLine {
    type V = Seq<char>;

    open spec fn deep_view(&self) -> Seq<char> {
        self.text@
    }
}

/// A fetched manifest file: its path and its content.
#[derive(Debug)]
pub struct RepoFile {
    pub name: String,
    pub content: RepoFileContentResponse,
}

/// What a `RepoFile` holds: its path and its lines.
pub ghost struct RepoFileData {
    pub name: Seq<char>,
    pub lines: Seq<Seq<char>>,
}

impl View for RepoFile {
    type V = RepoFileData;

    open spec fn view(&self) -> RepoFileData {
        RepoFileData { name: self.name@, lines: self.content.lines.deep_view() }
    }
}

impl DeepView for RepoFile {
    type V = RepoFileData;

    open spec fn deep_view(&self) -> RepoFileData {
        self.view()
    }
}

/// A dependency declaration parsed from one manifest line.
#[derive(Debug)]
pub struct PackageReference {
    pub package_name: String,
    pub package_version: PackageVersion,
}

impl Clone for PackageReference {
    fn clone(&self) -> (r: Self)
        ensures
            r == *self,
    {
        PackageReference {
            package_name: self.package_name.clone(),
            package_version: self.package_version,
        }
    }
}

/// What a `PackageReference` holds.
pub ghost struct PackageReferenceData {
    pub name: Seq<char>,
    pub version: PackageVersion,
}

impl View for PackageReference {
    type V = PackageReferenceData;

    open spec fn view(&self) -> PackageReferenceData {
        PackageReferenceData { name: self.package_name@, version: self.package_version }
    }
}

impl DeepView for PackageReference {
    type V = PackageReferenceData;

    open spec fn deep_view(&self) -> PackageReferenceData {
        self.view()
    }
}

/// The declaration marker a manifest line must contain.
pub open spec fn reference_marker() -> Seq<char> {
    "<PackageReference"@
}

/// The attribute marker of the package name.
pub open spec fn include_marker() -> Seq<char> {
    "Include"@
}

/// The attribute marker of the version.
pub open spec fn version_marker() -> Seq<char> {
    "Version"@
}

/// The value of one attribute token: the marker name the token begins with
/// is stripped from its front, the quote and equals characters are deleted,
/// the rest stays.
pub open spec fn token_value(token: Seq<char>, marker: Seq<char>) -> Seq<char>
    recommends
        starts_with_seq(token, marker),
{
    without_chars(token.skip(marker.len() as int), '"', '=')
}

/// Version parsed from a dot-separated string: at most three segments, each
/// read as a `u32` with 0 for a segment that is no numeral; segments beyond
/// the string's dot count are absent.
pub open spec fn parse_version_seq(s: Seq<char>) -> PackageVersion {
    let parts = splitn_on(s, '.', 3);
    PackageVersion {
        major: if parts.len() >= 1 {
            Option::Some(parse_u32_or_zero(parts[0]))
        } else {
            Option::None
        },
        minor: if parts.len() >= 2 {
            Option::Some(parse_u32_or_zero(parts[1]))
        } else {
            Option::None
        },
        patch: if parts.len() >= 3 {
            Option::Some(parse_u32_or_zero(parts[2]))
        } else {
            Option::None
        },
    }
}

/// The declaration a manifest line holds, if any: the line must contain the
/// declaration marker, and among its space-separated tokens one must begin
/// with the name marker and one with the version marker; the first such
/// token each yields the name and the version.
pub open spec fn parse_line(line: Seq<char>) -> Option<PackageReferenceData> {
    if !contains_seq(line, reference_marker()) {
        Option::None
    } else {
        let tokens = split_on(line, ' ');
        let ni = first_prefix_index(tokens, include_marker());
        let vi = first_prefix_index(tokens, version_marker());
        if ni == -1 || vi == -1 {
            Option::None
        } else {
            Option::Some(
                PackageReferenceData {
                    name: token_value(tokens[ni], include_marker()),
                    version: parse_version_seq(token_value(tokens[vi], version_marker())),
                },
            )
        }
    }
}

/// Parses a dot-separated version string, as `parse_version_seq` describes.
pub fn parse_version_str(s: &str) -> (v: PackageVersion)
    ensures
        v == parse_version_seq(s@),
{
    let parts = splitn_str(s, '.', 3);
    proof {
        crate::text::lemma_splitn_on_len(s@, '.', 3);
        assert(parts.deep_view().len() == parts@.len());
    }
    let major = Option::Some(parse_u32_or_default(parts[0].as_str()));
    let minor = if parts.len() >= 2 {
        Option::Some(parse_u32_or_default(parts[1].as_str()))
    } else {
        Option::None
    };
    let patch = if parts.len() >= 3 {
        Option::Some(parse_u32_or_default(parts[2].as_str()))
    } else {
        Option::None
    };
    PackageVersion::new(major, minor, patch)
}

impl PackageReference {
    /// Extracts the declaration from one manifest line, as `parse_line`
    /// describes; `Err` exactly where the line holds none.
    pub fn try_from(value: RepoFileContentLine) -> (r: Result<PackageReference, ()>)
        ensures
            match r {
                Result::Ok(p) => parse_line(value@) == Option::Some(p@),
                Result::Err(_) => parse_line(value@) is None,
            },
    {
        let text = value.text;
        if !contains_str(text.as_str(), "<PackageReference") {
            return Result::Err(());
        }
        let tokens = split_str(text.as_str(), ' ');
        let name_idx = find_with_prefix(&tokens, "Include");
        let version_idx = find_with_prefix(&tokens, "Version");
        match (name_idx, version_idx) {
            (Option::Some(ni), Option::Some(vi)) => {
                proof {
                    assert(tokens.deep_view()[ni as int] == tokens@[ni as int]@);
                    assert(tokens.deep_view()[vi as int] == tokens@[vi as int]@);
                }
                let name_raw = strip_prefix_str(tokens[ni].as_str(), "Include");
                let package_name = without_chars_str(name_raw.as_str(), '"', '=');
                let version_raw = strip_prefix_str(tokens[vi].as_str(), "Version");
                let version_str = without_chars_str(version_raw.as_str(), '"', '=');
                let package_version = parse_version_str(version_str.as_str());
                Result::Ok(PackageReference { package_name, package_version })
            },
            _ => Result::Err(()),
        }
    }
}

/// A dependency reference together with the repository and the manifest file
/// it was found in: the unit the report accumulates.
#[derive(Debug)]
pub struct RepoPackageReference {
    pub repo_name: String,
    pub package_reference: PackageReference,
    pub csproj_file_name: String,
}

impl Clone for RepoPackageReference {
    fn clone(&self) -> (r: Self)
        ensures
            r == *self,
    {
        RepoPackageReference {
            repo_name: self.repo_name.clone(),
            package_reference: self.package_reference.clone(),
            csproj_file_name: self.csproj_file_name.clone(),
        }
    }
}

/// What a `RepoPackageReference` holds.
pub ghost struct RepoPackageReferenceData {
    pub repo: Seq<char>,
    pub file: Seq<char>,
    pub name: Seq<char>,
    pub version: PackageVersion,
}

impl View for RepoPackageReference {
    type V = RepoPackageReferenceData;

    open spec fn view(&self) -> RepoPackageReferenceData {
        RepoPackageReferenceData {
            repo: self.repo_name@,
            file: self.csproj_file_name@,
            name: self.package_reference.package_name@,
            version: self.package_reference.package_version,
        }
    }
}

impl DeepView for RepoPackageReference {
    type V = RepoPackageReferenceData;

    open spec fn deep_view(&self) -> RepoPackageReferenceData {
        self.view()
    }
}

impl RepoPackageReference {
    pub fn new(repo_name: String, csproj_file_name: String, package_reference: PackageReference) -> (r: Self)
        ensures
            r.repo_name == repo_name,
            r.csproj_file_name == csproj_file_name,
            r.package_reference == package_reference,
    {
        Self { repo_name, package_reference, csproj_file_name }
    }
}

} // verus!
