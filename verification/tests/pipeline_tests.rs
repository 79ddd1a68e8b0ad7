use package_audit::models::{
    PackageReference, PackageVersion, ProjectRepo, ProjectReposResponse, RepoFile,
    RepoFileContentLine, RepoFileContentResponse, RepoFilesResponse, RepoPackageReference,
};
use package_audit::paging::{collect_file_pages, collect_repo_pages, paths_of_files_from_pages};
use package_audit::report::{sort_refs_desc, PackageVersionReport};
use package_audit::scan::{references_in_repo, should_ignore_repo, successful_files};

fn file(name: &str, lines: &[&str]) -> RepoFile {
    RepoFile {
        name: name.to_string(),
        content: RepoFileContentResponse {
            lines: lines
                .iter()
                .map(|l| RepoFileContentLine {
                    text: l.to_string(),
                })
                .collect(),
        },
    }
}

fn reference(repo: &str, path: &str, name: &str, version: PackageVersion) -> RepoPackageReference {
    RepoPackageReference::new(
        repo.to_string(),
        path.to_string(),
        PackageReference {
            package_name: name.to_string(),
            package_version: version,
        },
    )
}

#[test]
fn descending_sort_orders_versions() {
    let refs = vec![
        reference("r", "a.csproj", "P", PackageVersion::new(Some(1), Some(2), Some(3))),
        reference("r", "b.csproj", "P", PackageVersion::new(Some(1), Some(2), Some(10))),
        reference("r", "c.csproj", "P", PackageVersion::new(Some(2), Some(0), Some(0))),
    ];
    let sorted = sort_refs_desc(refs);
    let versions: Vec<String> = sorted
        .iter()
        .map(|r| r.package_reference.package_version.to_string())
        .collect();
    assert_eq!(versions, vec!["2.0.0", "1.2.10", "1.2.3"]);
}

#[test]
fn pagination_concatenates_pages_in_order() {
    let pages = vec![
        RepoFilesResponse {
            is_last_page: false,
            values: vec!["a".to_string(), "b".to_string()],
        },
        RepoFilesResponse {
            is_last_page: false,
            values: vec!["c".to_string()],
        },
        RepoFilesResponse {
            is_last_page: true,
            values: vec!["d".to_string(), "e".to_string()],
        },
    ];
    assert_eq!(collect_file_pages(pages), vec!["a", "b", "c", "d", "e"]);
}

#[test]
fn pagination_of_repos_concatenates_pages() {
    let pages = vec![
        ProjectReposResponse {
            is_last_page: false,
            values: vec![ProjectRepo {
                slug: "one".to_string(),
            }],
        },
        ProjectReposResponse {
            is_last_page: true,
            values: vec![ProjectRepo {
                slug: "two".to_string(),
            }],
        },
    ];
    let repos = collect_repo_pages(pages);
    let slugs: Vec<&str> = repos.iter().map(|r| r.slug.as_str()).collect();
    assert_eq!(slugs, vec!["one", "two"]);
}

#[test]
fn extension_filter_excludes_other_files() {
    let pages = vec![RepoFilesResponse {
        is_last_page: true,
        values: vec![
            "src/App.csproj".to_string(),
            "Directory.Build.props".to_string(),
            "lib/Lib.csproj".to_string(),
        ],
    }];
    let paths = paths_of_files_from_pages(pages, Some(".csproj"));
    assert_eq!(paths, vec!["src/App.csproj", "lib/Lib.csproj"]);
}

#[test]
fn no_filter_keeps_every_path() {
    let pages = vec![RepoFilesResponse {
        is_last_page: true,
        values: vec!["a.csproj".to_string(), "readme.md".to_string()],
    }];
    let paths = paths_of_files_from_pages(pages, None);
    assert_eq!(paths, vec!["a.csproj", "readme.md"]);
}

#[test]
fn ignore_prefix_skips_matching_repos_only() {
    assert!(should_ignore_repo("repo-b", Some("repo-b")));
    assert!(should_ignore_repo("deprecated-x", Some("deprecated-")));
    assert!(!should_ignore_repo("repo-a", Some("repo-b")));
    assert!(!should_ignore_repo("repo-a", None));
}

#[test]
fn end_to_end_single_repo_report() {
    // Two repos; repo-b is skipped by the ignore prefix before any listing.
    let repos = vec![
        ProjectRepo {
            slug: "repo-a".to_string(),
        },
        ProjectRepo {
            slug: "repo-b".to_string(),
        },
    ];
    let mut report = PackageVersionReport {
        repo_package_references: Vec::new(),
    };
    let mut ignored: Vec<String> = Vec::new();
    for repo in repos.iter() {
        if should_ignore_repo(&repo.slug, Some("repo-b")) {
            ignored.push(repo.slug.clone());
            continue;
        }
        let files = vec![file(
            "src/App.csproj",
            &["<ItemGroup>", "  <PackageReference Include=\"Target.Pkg\" Version=\"1.0.0\" />", "</ItemGroup>"],
        )];
        let mut refs = references_in_repo(&repo.slug, &files, "Target.Pkg");
        report.repo_package_references.append(&mut refs);
    }
    assert_eq!(ignored, vec!["repo-b"]);
    let text = report.to_string();
    assert_eq!(
        text,
        "## REPO-A\n\nRepository: repo-a. Project name: App. Target.Pkg package version: 1.0.0.\n\n\n"
    );
    assert!(!text.contains("REPO-B"));
}

#[test]
fn failed_file_fetch_drops_only_that_file() {
    // The middle file's fetch failed; the other two still contribute.
    let results = vec![
        Some(file(
            "one.csproj",
            &["<PackageReference Include=\"P\" Version=\"1.0.0\" />"],
        )),
        None,
        Some(file(
            "two.csproj",
            &["<PackageReference Include=\"P\" Version=\"2.0.0\" />"],
        )),
    ];
    let files = successful_files(results);
    assert_eq!(files.len(), 2);
    let refs = references_in_repo("r", &files, "P");
    assert_eq!(refs.len(), 2);
    assert_eq!(refs[0].csproj_file_name, "one.csproj");
    assert_eq!(refs[1].csproj_file_name, "two.csproj");
}

#[test]
fn non_matching_package_names_are_filtered_out() {
    let files = vec![file(
        "a.csproj",
        &[
            "<PackageReference Include=\"Wanted\" Version=\"1.2.3\" />",
            "<PackageReference Include=\"Unwanted\" Version=\"9.9.9\" />",
        ],
    )];
    let refs = references_in_repo("r", &files, "Wanted");
    assert_eq!(refs.len(), 1);
    assert_eq!(refs[0].package_reference.package_name, "Wanted");
}

#[test]
fn report_groups_consecutive_runs_separately() {
    // The same repository seen again after another one starts a new group.
    let refs = vec![
        reference("alpha", "a.csproj", "P", PackageVersion::new(Some(1), Some(0), Some(0))),
        reference("beta", "b.csproj", "P", PackageVersion::new(Some(2), Some(0), Some(0))),
        reference("alpha", "c.csproj", "P", PackageVersion::new(Some(3), Some(0), Some(0))),
    ];
    let report = PackageVersionReport {
        repo_package_references: refs,
    };
    let text = report.to_string();
    assert_eq!(text.matches("## ALPHA").count(), 2);
    assert_eq!(text.matches("## BETA").count(), 1);
}

#[test]
fn report_group_sorts_descending_within_repo() {
    let refs = vec![
        reference("r", "low.csproj", "P", PackageVersion::new(Some(1), Some(2), Some(3))),
        reference("r", "high.csproj", "P", PackageVersion::new(Some(1), Some(2), Some(10))),
    ];
    let report = PackageVersionReport {
        repo_package_references: refs,
    };
    let text = report.to_string();
    let high = text.find("1.2.10").unwrap();
    let low = text.find("1.2.3").unwrap();
    assert!(high < low);
}

#[test]
fn project_name_strips_directories_and_extension() {
    let files = vec![file(
        "deep/nested/dir/Fancy.Name.csproj",
        &["<PackageReference Include=\"P\" Version=\"1.0.0\" />"],
    )];
    let refs = references_in_repo("r", &files, "P");
    let report = PackageVersionReport {
        repo_package_references: refs,
    };
    let text = report.to_string();
    assert!(text.contains("Project name: Fancy.Name."));
}

#[test]
fn empty_report_renders_only_trailing_blank_lines() {
    let report = PackageVersionReport {
        repo_package_references: Vec::new(),
    };
    assert_eq!(report.to_string(), "\n\n");
}

#[test]
fn project_name_strips_only_the_trailing_extension() {
    let files = vec![file(
        "dir/My.csprojApp.csproj",
        &["<PackageReference Include=\"P\" Version=\"1.0.0\" />"],
    )];
    let refs = references_in_repo("r", &files, "P");
    let report = PackageVersionReport {
        repo_package_references: refs,
    };
    let text = report.to_string();
    assert!(text.contains("Project name: My.csprojApp."));
}
