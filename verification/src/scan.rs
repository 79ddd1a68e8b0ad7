//! The scan over a project's repositories: which repositories are skipped,
//! which fetched files take part, and which manifest lines contribute a
//! reference to the accumulated report.

use crate::models::{
    parse_line, PackageReference, RepoFile, RepoFileData, RepoPackageReference,
    RepoPackageReferenceData,
};
use crate::paging::opt_str_view;
use crate::text::{starts_with_seq, starts_with_str};
use vstd::prelude::*;

verus! {

/// A repository is skipped exactly where an ignore prefix is configured and
/// its slug starts with it.
pub open spec fn repo_ignored(slug: Seq<char>, prefix: Option<Seq<char>>) -> bool {
    match prefix {
        Option::None => false,
        Option::Some(p) => starts_with_seq(slug, p),
    }
}

/// Decides whether a repository is skipped, as `repo_ignored` describes.
pub fn should_ignore_repo(slug: &str, ignore_prefix: Option<&str>) -> (r: bool)
    ensures
        r == repo_ignored(slug@, opt_str_view(ignore_prefix)),
{
    match ignore_prefix {
        Option::Some(p) => starts_with_str(slug, p),
        Option::None => false,
    }
}

/// The files whose fetch succeeded, in the order the results stand in; a
/// failed fetch contributes nothing.
pub open spec fn present_files(results: Seq<Option<RepoFileData>>) -> Seq<RepoFileData>
    decreases results.len(),
{
    if results.len() == 0 {
        Seq::empty()
    } else {
        (match results[0] {
            Option::Some(f) => seq![f],
            Option::None => Seq::empty(),
        }) + present_files(results.drop_first())
    }
}

/// Keeps the files whose fetch succeeded, as `present_files` describes: one
/// file's failure must not lose the others.
#[verifier::loop_isolation(false)]
pub fn successful_files(results: Vec<Option<RepoFile>>) -> (r: Vec<RepoFile>)
    ensures
        r.deep_view() == present_files(results.deep_view()),
{
    let ghost all = results.deep_view();
    let mut results = results;
    let mut out: Vec<RepoFile> = Vec::new();
    proof {
        assert(out.deep_view() + present_files(results.deep_view()) =~= present_files(all));
    }
    while results.len() > 0
        invariant
            present_files(all) == out.deep_view() + present_files(results.deep_view()),
        decreases results.len(),
    {
        let ghost before = results.deep_view();
        let head = results.remove(0);
        proof {
            assert(results.deep_view() =~= before.drop_first());
            assert(before[0] == head.deep_view());
        }
        match head {
            Option::Some(f) => {
                let ghost prev = out.deep_view();
                out.push(f);
                proof {
                    assert(out.deep_view() =~= prev.push(f@));
                    assert(prev + (seq![before[0]->0] + present_files(before.drop_first()))
                        =~= out.deep_view() + present_files(results.deep_view()));
                }
            },
            Option::None => {},
        }
    }
    proof {
        assert(results.deep_view() =~= Seq::<Option<RepoFileData>>::empty());
        assert(out.deep_view() + Seq::<RepoFileData>::empty() =~= out.deep_view());
    }
    out
}

/// The reference one manifest line contributes: the line's declaration,
/// tagged with repository and file, where the declaration names the target
/// package exactly; nothing otherwise.
pub open spec fn line_reference(
    line: Seq<char>,
    package: Seq<char>,
    repo: Seq<char>,
    file: Seq<char>,
) -> Seq<RepoPackageReferenceData> {
    match parse_line(line) {
        Option::Some(p) => if p.name == package {
            seq![RepoPackageReferenceData { repo, file, name: p.name, version: p.version }]
        } else {
            Seq::empty()
        },
        Option::None => Seq::empty(),
    }
}

/// The references of one file's lines, in line order.
pub open spec fn file_references(
    repo: Seq<char>,
    file: Seq<char>,
    lines: Seq<Seq<char>>,
    package: Seq<char>,
) -> Seq<RepoPackageReferenceData>
    decreases lines.len(),
{
    if lines.len() == 0 {
        Seq::empty()
    } else {
        line_reference(lines[0], package, repo, file) + file_references(
            repo,
            file,
            lines.drop_first(),
            package,
        )
    }
}

/// Extracts the references of one fetched manifest file, as
/// `file_references` describes.
#[verifier::loop_isolation(false)]
pub fn references_in_file(repo_slug: &str, file: &RepoFile, package: &str) -> (r: Vec<
    RepoPackageReference,
>)
    ensures
        r.deep_view() == file_references(repo_slug@, file@.name, file@.lines, package@),
{
    let pkg: String = package.to_owned();
    let n = file.content.lines.len();
    let mut out: Vec<RepoPackageReference> = Vec::new();
    let mut i: usize = 0;
    let ghost lines = file@.lines;
    proof {
        assert(lines.skip(0) =~= lines);
        assert(out.deep_view() + file_references(repo_slug@, file@.name, lines, package@)
            =~= file_references(repo_slug@, file@.name, lines, package@));
    }
    while i < n
        invariant
            0 <= i <= n,
            n == lines.len(),
            file_references(repo_slug@, file@.name, lines, package@) == out.deep_view()
                + file_references(repo_slug@, file@.name, lines.skip(i as int), package@),
        decreases n - i,
    {
        let ghost rem = lines.skip(i as int);
        proof {
            assert(rem[0] == lines[i as int]);
            assert(rem.drop_first() =~= lines.skip(i + 1));
        }
        let line = file.content.lines[i].clone();
        let ghost contribution = line_reference(lines[i as int], package@, repo_slug@, file@.name);
        match PackageReference::try_from(line) {
            Result::Ok(p) => {
                if p.package_name == pkg {
                    let ghost prev = out.deep_view();
                    let tagged = RepoPackageReference::new(
                        repo_slug.to_owned(),
                        file.name.clone(),
                        p,
                    );
                    proof {
                        assert(contribution == seq![tagged@]);
                    }
                    out.push(tagged);
                    proof {
                        assert(out.deep_view() =~= prev.push(tagged@));
                        assert(prev + (contribution + file_references(
                            repo_slug@,
                            file@.name,
                            rem.drop_first(),
                            package@,
                        )) =~= out.deep_view() + file_references(
                            repo_slug@,
                            file@.name,
                            lines.skip(i + 1),
                            package@,
                        ));
                    }
                } else {
                    proof {
                        assert(contribution =~= Seq::<RepoPackageReferenceData>::empty());
                    }
                }
            },
            Result::Err(_) => {
                proof {
                    assert(contribution =~= Seq::<RepoPackageReferenceData>::empty());
                }
            },
        }
        i += 1;
    }
    proof {
        assert(lines.skip(n as int) =~= Seq::<Seq<char>>::empty());
        assert(out.deep_view() + Seq::<RepoPackageReferenceData>::empty() =~= out.deep_view());
    }
    out
}

/// The references of a repository's fetched files, file by file.
pub open spec fn repo_references(
    repo: Seq<char>,
    files: Seq<RepoFileData>,
    package: Seq<char>,
) -> Seq<RepoPackageReferenceData>
    decreases files.len(),
{
    if files.len() == 0 {
        Seq::empty()
    } else {
        file_references(repo, files[0].name, files[0].lines, package) + repo_references(
            repo,
            files.drop_first(),
            package,
        )
    }
}

/// Extracts the references of every fetched file of one repository, as
/// `repo_references` describes: repository order outside, line order within
/// a file.
#[verifier::loop_isolation(false)]
pub fn references_in_repo(repo_slug: &str, files: &Vec<RepoFile>, package: &str) -> (r: Vec<
    RepoPackageReference,
>)
    ensures
        r.deep_view() == repo_references(repo_slug@, files.deep_view(), package@),
{
    let n = files.len();
    let mut out: Vec<RepoPackageReference> = Vec::new();
    let mut i: usize = 0;
    let ghost fs = files.deep_view();
    proof {
        assert(fs.skip(0) =~= fs);
        assert(out.deep_view() + repo_references(repo_slug@, fs, package@) =~= repo_references(
            repo_slug@,
            fs,
            package@,
        ));
    }
    while i < n
        invariant
            0 <= i <= n,
            n == fs.len(),
            repo_references(repo_slug@, fs, package@) == out.deep_view() + repo_references(
                repo_slug@,
                fs.skip(i as int),
                package@,
            ),
        decreases n - i,
    {
        let ghost rem = fs.skip(i as int);
        proof {
            assert(rem[0] == fs[i as int]);
            assert(rem.drop_first() =~= fs.skip(i + 1));
        }
        let mut refs = references_in_file(repo_slug, &files[i], package);
        let ghost prev = out.deep_view();
        let ghost refs_view = refs.deep_view();
        out.append(&mut refs);
        proof {
            assert(out.deep_view() =~= prev + refs_view);
            assert(prev + (refs_view + repo_references(repo_slug@, rem.drop_first(), package@))
                =~= out.deep_view() + repo_references(repo_slug@, fs.skip(i + 1), package@));
        }
        i += 1;
    }
    proof {
        assert(fs.skip(n as int) =~= Seq::<RepoFileData>::empty());
        assert(out.deep_view() + Seq::<RepoPackageReferenceData>::empty() =~= out.deep_view());
    }
    out
}

} // verus!
