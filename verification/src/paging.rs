//! The compute part of the paginated listing convention: the remote source
//! answers page by page, each page carrying its items and a flag that marks
//! the final page; the items of the pages up to and including the first
//! final page, concatenated in page order, are the listing.

use crate::models::{ProjectRepo, ProjectReposResponse, RepoFilesResponse};
use crate::text::{ends_with_seq, ends_with_str};
use vstd::prelude::*;

verus! {

/// The repository slugs a sequence of listing pages names: the values of the
/// pages up to and including the first page marked last, in page order;
/// every page where none is marked last.
pub open spec fn collected_repo_pages(pages: Seq<ProjectReposResponse>) -> Seq<Seq<char>>
    decreases pages.len(),
{
    if pages.len() == 0 {
        Seq::empty()
    } else if pages[0].is_last_page {
        pages[0].values.deep_view()
    } else {
        pages[0].values.deep_view() + collected_repo_pages(pages.drop_first())
    }
}

/// Concatenates the repository pages, as `collected_repo_pages` describes.
#[verifier::loop_isolation(false)]
pub fn collect_repo_pages(pages: Vec<ProjectReposResponse>) -> (r: Vec<ProjectRepo>)
    ensures
        r.deep_view() == collected_repo_pages(pages@),
{
    let ghost all = pages@;
    let mut pages = pages;
    let mut out: Vec<ProjectRepo> = Vec::new();
    proof {
        assert(out.deep_view() + collected_repo_pages(pages@) =~= collected_repo_pages(all));
    }
    while pages.len() > 0
        invariant
            collected_repo_pages(all) == out.deep_view() + collected_repo_pages(pages@),
        decreases pages.len(),
    {
        let ghost before = pages@;
        let page = pages.remove(0);
        proof {
            assert(pages@ =~= before.drop_first());
        }
        let last = page.is_last_page;
        let ghost prev = out.deep_view();
        let mut vals = page.values;
        out.append(&mut vals);
        proof {
            assert(out.deep_view() =~= prev + page.values.deep_view());
        }
        if last {
            proof {
                assert(collected_repo_pages(before) == page.values.deep_view());
                assert(out.deep_view() =~= collected_repo_pages(all));
            }
            return out;
        }
        proof {
            assert(collected_repo_pages(before) == page.values.deep_view()
                + collected_repo_pages(before.drop_first()));
            assert(out.deep_view() + collected_repo_pages(pages@) =~= collected_repo_pages(all));
        }
    }
    proof {
        assert(collected_repo_pages(pages@) =~= Seq::<Seq<char>>::empty());
        assert(out.deep_view() =~= collected_repo_pages(all));
    }
    out
}

/// The file paths a sequence of file-listing pages names, before filtering.
pub open spec fn collected_file_pages(pages: Seq<RepoFilesResponse>) -> Seq<Seq<char>>
    decreases pages.len(),
{
    if pages.len() == 0 {
        Seq::empty()
    } else if pages[0].is_last_page {
        pages[0].values.deep_view()
    } else {
        pages[0].values.deep_view() + collected_file_pages(pages.drop_first())
    }
}

/// Concatenates the file-listing pages, as `collected_file_pages` describes.
#[verifier::loop_isolation(false)]
pub fn collect_file_pages(pages: Vec<RepoFilesResponse>) -> (r: Vec<String>)
    ensures
        r.deep_view() == collected_file_pages(pages@),
{
    let ghost all = pages@;
    let mut pages = pages;
    let mut out: Vec<String> = Vec::new();
    proof {
        assert(out.deep_view() + collected_file_pages(pages@) =~= collected_file_pages(all));
    }
    while pages.len() > 0
        invariant
            collected_file_pages(all) == out.deep_view() + collected_file_pages(pages@),
        decreases pages.len(),
    {
        let ghost before = pages@;
        let page = pages.remove(0);
        proof {
            assert(pages@ =~= before.drop_first());
        }
        let last = page.is_last_page;
        let ghost prev = out.deep_view();
        let mut vals = page.values;
        out.append(&mut vals);
        proof {
            assert(out.deep_view() =~= prev + page.values.deep_view());
        }
        if last {
            proof {
                assert(collected_file_pages(before) == page.values.deep_view());
                assert(out.deep_view() =~= collected_file_pages(all));
            }
            return out;
        }
        proof {
            assert(collected_file_pages(before) == page.values.deep_view()
                + collected_file_pages(before.drop_first()));
            assert(out.deep_view() + collected_file_pages(pages@) =~= collected_file_pages(all));
        }
    }
    proof {
        assert(collected_file_pages(pages@) =~= Seq::<Seq<char>>::empty());
        assert(out.deep_view() =~= collected_file_pages(all));
    }
    out
}

/// The view of an optional borrowed string.
pub open spec fn opt_str_view(e: Option<&str>) -> Option<Seq<char>> {
    match e {
        Option::Some(s) => Option::Some(s@),
        Option::None => Option::None,
    }
}

/// A path passes the filter: no filter keeps everything, a filter keeps the
/// paths it is a suffix of.
pub open spec fn path_kept(p: Seq<char>, ext: Option<Seq<char>>) -> bool {
    match ext {
        Option::None => true,
        Option::Some(e) => ends_with_seq(p, e),
    }
}

/// The paths that pass the filter, in their order.
pub open spec fn filtered_paths(paths: Seq<Seq<char>>, ext: Option<Seq<char>>) -> Seq<Seq<char>>
    decreases paths.len(),
{
    if paths.len() == 0 {
        Seq::empty()
    } else {
        (if path_kept(paths[0], ext) {
            seq![paths[0]]
        } else {
            Seq::empty()
        }) + filtered_paths(paths.drop_first(), ext)
    }
}

/// Keeps the paths the filter keeps, as `filtered_paths` describes.
#[verifier::loop_isolation(false)]
pub fn filter_paths(paths: Vec<String>, extension: Option<&str>) -> (r: Vec<String>)
    ensures
        r.deep_view() == filtered_paths(paths.deep_view(), opt_str_view(extension)),
{
    let ghost all = paths.deep_view();
    let ghost ext = opt_str_view(extension);
    let mut paths = paths;
    let mut out: Vec<String> = Vec::new();
    proof {
        assert(out.deep_view() + filtered_paths(paths.deep_view(), ext) =~= filtered_paths(
            all,
            ext,
        ));
    }
    while paths.len() > 0
        invariant
            filtered_paths(all, ext) == out.deep_view() + filtered_paths(paths.deep_view(), ext),
        decreases paths.len(),
    {
        let ghost before = paths.deep_view();
        let p = paths.remove(0);
        proof {
            assert(paths.deep_view() =~= before.drop_first());
            assert(before[0] == p@);
        }
        let keep = match extension {
            Option::Some(e) => ends_with_str(p.as_str(), e),
            Option::None => true,
        };
        if keep {
            let ghost prev = out.deep_view();
            out.push(p);
            proof {
                assert(out.deep_view() =~= prev.push(p@));
                assert(prev + (seq![before[0]] + filtered_paths(before.drop_first(), ext)) =~= out.deep_view()
                    + filtered_paths(paths.deep_view(), ext));
            }
        }
    }
    proof {
        assert(paths.deep_view() =~= Seq::<Seq<char>>::empty());
        assert(out.deep_view() + Seq::<Seq<char>>::empty() =~= out.deep_view());
    }
    out
}

/// The compute part of listing a repository's manifest files: the pages'
/// paths concatenated, then filtered by extension.
pub fn paths_of_files_from_pages(pages: Vec<RepoFilesResponse>, extension: Option<&str>) -> (r:
    Vec<String>)
    ensures
        r.deep_view() == filtered_paths(collected_file_pages(pages@), opt_str_view(extension)),
{
    let all = collect_file_pages(pages);
    filter_paths(all, extension)
}

} // verus!
