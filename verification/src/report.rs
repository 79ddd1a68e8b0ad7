//! The report: accumulated references grouped by repository over consecutive
//! runs, each group sorted by version descending and rendered as text.

use crate::models::{version_display, version_le, version_lt, RepoPackageReference,
    RepoPackageReferenceData};
use crate::text::{split_on, split_str, without_suffix, without_suffix_str};
use vstd::prelude::*;

verus! {

/// What `str::to_uppercase` returns: a function of the characters alone.
pub uninterp spec fn upper_of(s: Seq<char>) -> Seq<char>;

/// Relies on str::to_uppercase: the uppercase form of the string, a function
/// of its characters alone.
#[verifier::external_body]
fn uppercase(s: &str) -> (r: String)
    ensures
        r@ == upper_of(s@),
{
    s.to_uppercase()
}

/// `x` inserted into `s`: before the first element whose version is strictly
/// below `x`'s, after every element whose version equals `x`'s.
pub open spec fn insert_desc(
    s: Seq<RepoPackageReferenceData>,
    x: RepoPackageReferenceData,
) -> Seq<RepoPackageReferenceData>
    decreases s.len(),
{
    if s.len() == 0 {
        seq![x]
    } else if version_lt(s[0].version, x.version) {
        seq![x] + s
    } else {
        seq![s[0]] + insert_desc(s.drop_first(), x)
    }
}

/// `s` sorted by version descending. Among references of equal version the
/// later-accumulated one comes first.
pub open spec fn sort_desc(s: Seq<RepoPackageReferenceData>) -> Seq<RepoPackageReferenceData>
    decreases s.len(),
{
    if s.len() == 0 {
        s
    } else {
        insert_desc(sort_desc(s.drop_first()), s[0])
    }
}

proof fn lemma_insert_desc_at(s: Seq<RepoPackageReferenceData>, x: RepoPackageReferenceData, j: int)
    requires
        0 <= j <= s.len(),
        forall|k: int| 0 <= k < j ==> !version_lt(#[trigger] s[k].version, x.version),
        j == s.len() || version_lt(s[j].version, x.version),
    ensures
        insert_desc(s, x) == s.subrange(0, j) + seq![x] + s.skip(j),
    decreases s.len(),
{
    if s.len() == 0 {
        assert(insert_desc(s, x) =~= s.subrange(0, j) + seq![x] + s.skip(j));
    } else if version_lt(s[0].version, x.version) {
        assert(j == 0);
        assert(insert_desc(s, x) =~= s.subrange(0, 0) + seq![x] + s.skip(0));
    } else {
        assert(j >= 1);
        lemma_insert_desc_at(s.drop_first(), x, j - 1);
        assert(s.drop_first().subrange(0, j - 1) =~= s.subrange(1, j));
        assert(s.drop_first().skip(j - 1) =~= s.skip(j));
        assert(seq![s[0]] + (s.subrange(1, j) + seq![x] + s.skip(j)) =~= s.subrange(0, j)
            + seq![x] + s.skip(j));
    }
}

/// Sorts the references of one group by version descending, as `sort_desc`
/// describes.
#[verifier::loop_isolation(false)]
pub fn sort_refs_desc(refs: Vec<RepoPackageReference>) -> (r: Vec<RepoPackageReference>)
    ensures
        r.deep_view() == sort_desc(refs.deep_view()),
{
    let ghost rs = refs.deep_view();
    let n = refs.len();
    let mut out: Vec<RepoPackageReference> = Vec::new();
    let mut i: usize = n;
    proof {
        assert(rs.skip(n as int) =~= Seq::<RepoPackageReferenceData>::empty());
        assert(out.deep_view() =~= sort_desc(rs.skip(n as int)));
    }
    while i > 0
        invariant
            0 <= i <= n,
            n == rs.len(),
            out.deep_view() == sort_desc(rs.skip(i as int)),
        decreases i,
    {
        i -= 1;
        let x = refs[i].clone();
        let xv = x.package_reference.package_version;
        let ghost xd = x@;
        let m = out.len();
        let mut j: usize = 0;
        while j < m && !out[j].package_reference.package_version.lt(&xv)
            invariant
                0 <= j <= m,
                forall|k: int|
                    0 <= k < j ==> !version_lt(
                        #[trigger] out.deep_view()[k].version,
                        xd.version,
                    ),
            decreases m - j,
        {
            proof {
                assert(out.deep_view()[j as int].version
                    == out@[j as int].package_reference.package_version);
            }
            j += 1;
        }
        let ghost prev = out.deep_view();
        proof {
            if j < m {
                assert(prev[j as int].version == out@[j as int].package_reference.package_version);
            }
        }
        out.insert(j, x);
        proof {
            lemma_insert_desc_at(prev, xd, j as int);
            assert(out.deep_view() =~= prev.subrange(0, j as int) + seq![xd] + prev.skip(j as int));
            assert(rs.skip(i as int).drop_first() =~= rs.skip(i + 1));
            assert(rs.skip(i as int)[0] == rs[i as int]);
            assert(out.deep_view() == sort_desc(rs.skip(i as int)));
        }
    }
    proof {
        assert(rs.skip(0) =~= rs);
    }
    out
}

/// `s` is ordered by version descending.
pub open spec fn sorted_desc(s: Seq<RepoPackageReferenceData>) -> bool {
    forall|a: int, b: int|
        0 <= a <= b < s.len() ==> version_le(#[trigger] s[b].version, #[trigger] s[a].version)
}

proof fn lemma_insert_desc_props(s: Seq<RepoPackageReferenceData>, x: RepoPackageReferenceData)
    requires
        sorted_desc(s),
    ensures
        insert_desc(s, x).len() == s.len() + 1,
        sorted_desc(insert_desc(s, x)),
        insert_desc(s, x).to_multiset() == s.to_multiset().insert(x),
    decreases s.len(),
{
    broadcast use vstd::seq_lib::group_to_multiset_ensures;

    let r = insert_desc(s, x);
    if s.len() == 0 {
        assert(r =~= Seq::<RepoPackageReferenceData>::empty().push(x));
        assert forall|a: RepoPackageReferenceData|
            Seq::<RepoPackageReferenceData>::empty().to_multiset().count(a) == 0 by {
            assert(!Seq::<RepoPackageReferenceData>::empty().contains(a));
        }
        assert(r.to_multiset() =~= s.to_multiset().insert(x));
    } else if version_lt(s[0].version, x.version) {
        assert(r == seq![x] + s);
        vstd::seq_lib::lemma_multiset_commutative(seq![x], s);
        assert(seq![x] =~= Seq::<RepoPackageReferenceData>::empty().push(x));
        assert forall|a: RepoPackageReferenceData|
            Seq::<RepoPackageReferenceData>::empty().to_multiset().count(a) == 0 by {
            assert(!Seq::<RepoPackageReferenceData>::empty().contains(a));
        }
        assert(r.to_multiset() =~= s.to_multiset().insert(x));
        assert forall|b: int| 0 <= b < s.len() implies version_le(
            s[b].version,
            x.version,
        ) by {
            crate::models::lemma_version_le_total_order(s[b].version, s[0].version, x.version);
        }
        assert(sorted_desc(r));
    } else {
        let tail = s.drop_first();
        assert(sorted_desc(tail)) by {
            assert(forall|a: int, b: int|
                0 <= a <= b < tail.len() ==> version_le(
                    #[trigger] tail[b].version,
                    #[trigger] tail[a].version,
                ));
        }
        lemma_insert_desc_props(tail, x);
        let rest = insert_desc(tail, x);
        assert(r == seq![s[0]] + rest);
        vstd::seq_lib::lemma_multiset_commutative(seq![s[0]], rest);
        vstd::seq_lib::lemma_multiset_commutative(seq![s[0]], tail);
        assert(s =~= seq![s[0]] + tail);
        assert(r.to_multiset() =~= s.to_multiset().insert(x));
        // Every element of `rest` is x or one of the tail, so none exceeds
        // the head.
        assert forall|t: int| 0 <= t < rest.len() implies version_le(
            rest[t].version,
            s[0].version,
        ) by {
            assert(rest.contains(rest[t]));
            assert(rest.to_multiset().count(rest[t]) > 0);
            if rest[t] == x {
                crate::models::lemma_version_le_total_order(x.version, s[0].version, x.version);
                assert(!version_lt(s[0].version, x.version));
                assert(version_le(x.version, s[0].version));
            } else {
                assert(tail.to_multiset().count(rest[t]) > 0);
                assert(tail.contains(rest[t]));
                let k = choose|k: int| 0 <= k < tail.len() && tail[k] == rest[t];
                assert(version_le(s[k + 1].version, s[0].version));
            }
        }
        assert forall|a: int, b: int| 0 <= a <= b < r.len() implies version_le(
            r[b].version,
            r[a].version,
        ) by {
            if a == 0 {
                if b > 0 {
                    assert(r[b] == rest[b - 1]);
                }
                crate::models::lemma_version_le_total_order(
                    r[b].version,
                    r[a].version,
                    r[a].version,
                );
            } else {
                assert(r[a] == rest[a - 1]);
                assert(r[b] == rest[b - 1]);
            }
        }
    }
}

/// What `sort_desc` yields is the same collection of references, ordered by
/// version descending: the length and the multiset of references are kept.
pub proof fn lemma_sort_desc_props(s: Seq<RepoPackageReferenceData>)
    ensures
        sort_desc(s).len() == s.len(),
        sorted_desc(sort_desc(s)),
        sort_desc(s).to_multiset() == s.to_multiset(),
    decreases s.len(),
{
    broadcast use vstd::seq_lib::group_to_multiset_ensures;

    if s.len() > 0 {
        let tail = s.drop_first();
        lemma_sort_desc_props(tail);
        lemma_insert_desc_props(sort_desc(tail), s[0]);
        assert(s.remove(0) =~= tail);
        assert(tail.to_multiset() == s.to_multiset().remove(s[0]));
        assert(s.contains(s[0]));
        assert(s.to_multiset().count(s[0]) > 0);
        assert(s.to_multiset().remove(s[0]).insert(s[0]) =~= s.to_multiset());
        assert(sort_desc(s).to_multiset() == s.to_multiset());
    }
}

/// Length of the initial run of references belonging to `repo`.
pub open spec fn run_len(refs: Seq<RepoPackageReferenceData>, repo: Seq<char>) -> nat
    decreases refs.len(),
{
    if refs.len() == 0 || refs[0].repo != repo {
        0
    } else {
        1 + run_len(refs.drop_first(), repo)
    }
}

pub proof fn lemma_run_len_le(refs: Seq<RepoPackageReferenceData>, repo: Seq<char>)
    ensures
        run_len(refs, repo) <= refs.len(),
    decreases refs.len(),
{
    if refs.len() > 0 && refs[0].repo == repo {
        lemma_run_len_le(refs.drop_first(), repo);
    }
}

proof fn lemma_run_len_at(refs: Seq<RepoPackageReferenceData>, repo: Seq<char>, k: int)
    requires
        0 <= k <= refs.len(),
        forall|j: int| 0 <= j < k ==> (#[trigger] refs[j].repo) == repo,
        k == refs.len() || refs[k].repo != repo,
    ensures
        run_len(refs, repo) == k,
    decreases refs.len(),
{
    if k > 0 {
        lemma_run_len_at(refs.drop_first(), repo, k - 1);
    }
}

/// The project name shown for a manifest path: the path's last
/// slash-separated segment, with its manifest extension removed.
pub open spec fn project_name_of(path: Seq<char>) -> Seq<char> {
    without_suffix(split_on(path, '/').last(), ".csproj"@)
}

/// Renders the project name of a manifest path, as `project_name_of`
/// describes.
pub fn project_name(path: &str) -> (r: String)
    ensures
        r@ == project_name_of(path@),
{
    let parts = split_str(path, '/');
    proof {
        crate::text::lemma_split_on_len(path@, '/');
        assert(parts.deep_view()[parts@.len() - 1] == parts@[parts@.len() - 1]@);
    }
    let last = parts.len() - 1;
    without_suffix_str(parts[last].as_str(), ".csproj")
}

/// The report line of one reference.
pub open spec fn line_for(r: RepoPackageReferenceData) -> Seq<char> {
    "Repository: "@ + r.repo + ". Project name: "@ + project_name_of(r.file) + ". "@ + r.name
        + " package version: "@ + version_display(r.version) + ".\n"@
}

/// The lines of a sorted group, in order.
pub open spec fn render_lines(refs: Seq<RepoPackageReferenceData>) -> Seq<char>
    decreases refs.len(),
{
    if refs.len() == 0 {
        Seq::empty()
    } else {
        line_for(refs[0]) + render_lines(refs.drop_first())
    }
}

/// One group: an uppercased heading, a blank line, then the group's
/// references sorted by version descending.
pub open spec fn render_group(group: Seq<RepoPackageReferenceData>) -> Seq<char>
    recommends
        group.len() > 0,
{
    "## "@ + upper_of(group[0].repo) + "\n"@ + "\n"@ + render_lines(sort_desc(group))
}

/// All groups: references are grouped over consecutive runs of one
/// repository; a repository seen again after a different one starts a new
/// group.
pub open spec fn render_groups(refs: Seq<RepoPackageReferenceData>) -> Seq<char>
    decreases refs.len(),
    via render_groups_decreases
{
    if refs.len() == 0 {
        Seq::empty()
    } else {
        let k = 1 + run_len(refs.drop_first(), refs[0].repo);
        render_group(refs.subrange(0, k as int)) + render_groups(refs.skip(k as int))
    }
}

#[via_fn]
proof fn render_groups_decreases(refs: Seq<RepoPackageReferenceData>) {
    if refs.len() > 0 {
        lemma_run_len_le(refs.drop_first(), refs[0].repo);
    }
}

/// The whole report: the groups, then two blank lines.
pub open spec fn report_rendering(refs: Seq<RepoPackageReferenceData>) -> Seq<char> {
    render_groups(refs) + "\n\n"@
}

/// Appends the report line of one reference.
fn append_line(out: &mut String, r: &RepoPackageReference)
    ensures
        final(out)@ == old(out)@ + line_for(r@),
{
    out.append("Repository: ");
    out.append(r.repo_name.as_str());
    out.append(". Project name: ");
    let pn = project_name(r.csproj_file_name.as_str());
    out.append(pn.as_str());
    out.append(". ");
    out.append(r.package_reference.package_name.as_str());
    out.append(" package version: ");
    let vs = r.package_reference.package_version.to_string();
    out.append(vs.as_str());
    out.append(".\n");
    proof {
        assert(out@ =~= old(out)@ + line_for(r@));
    }
}

/// Appends the lines of a sorted group.
#[verifier::loop_isolation(false)]
fn append_lines(out: &mut String, refs: &Vec<RepoPackageReference>)
    ensures
        final(out)@ == old(out)@ + render_lines(refs.deep_view()),
{
    let n = refs.len();
    let ghost rs = refs.deep_view();
    let mut i: usize = 0;
    proof {
        assert(rs.skip(0) =~= rs);
        assert(old(out)@ + Seq::<char>::empty() =~= old(out)@);
    }
    while i < n
        invariant
            0 <= i <= n,
            n == rs.len(),
            old(out)@ + render_lines(rs) == out@ + render_lines(rs.skip(i as int)),
        decreases n - i,
    {
        let ghost rem = rs.skip(i as int);
        proof {
            assert(rem[0] == rs[i as int]);
            assert(rem.drop_first() =~= rs.skip(i + 1));
        }
        let ghost prev = out@;
        append_line(out, &refs[i]);
        proof {
            assert(prev + (line_for(rem[0]) + render_lines(rem.drop_first())) =~= out@
                + render_lines(rs.skip(i + 1)));
        }
        i += 1;
    }
    proof {
        assert(rs.skip(n as int) =~= Seq::<RepoPackageReferenceData>::empty());
        assert(out@ + Seq::<char>::empty() =~= out@);
    }
}

/// The accumulated references of one run, in the order the scan produced
/// them.
pub struct PackageVersionReport {
    pub repo_package_references: Vec<RepoPackageReference>,
}

impl Default for PackageVersionReport {
    /// An empty report.
    fn default() -> (r: Self)
        ensures
            r.repo_package_references@.len() == 0,
    {
        PackageVersionReport { repo_package_references: Vec::new() }
    }
}

impl PackageVersionReport {
    /// Renders the report, as `report_rendering` describes: consecutive-run
    /// groups by repository, each sorted by version descending, with two
    /// trailing blank lines.
    #[verifier::loop_isolation(false)]
    #[verifier::rlimit(60)]
    pub fn to_string(&self) -> (r: String)
        ensures
            r@ == report_rendering(self.repo_package_references.deep_view()),
    {
        let refs = &self.repo_package_references;
        let n = refs.len();
        let ghost rs = refs.deep_view();
        let mut out = String::new();
        let mut i: usize = 0;
        proof {
            assert(rs.skip(0) =~= rs);
            assert(Seq::<char>::empty() + render_groups(rs) =~= render_groups(rs));
        }
        while i < n
            invariant
                0 <= i <= n,
                n == rs.len(),
                render_groups(rs) == out@ + render_groups(rs.skip(i as int)),
            decreases n - i,
        {
            let mut j: usize = i + 1;
            while j < n && refs[j].repo_name == refs[i].repo_name
                invariant
                    i < j <= n,
                    forall|k: int| i <= k < j ==> (#[trigger] rs[k]).repo == rs[i as int].repo,
                decreases n - j,
            {
                proof {
                    assert(rs[j as int].repo == refs@[j as int].repo_name@);
                }
                j += 1;
            }
            let ghost rem = rs.skip(i as int);
            let ghost k = j - i;
            proof {
                assert(rs[i as int].repo == refs@[i as int].repo_name@);
                if j < n {
                    assert(rs[j as int].repo == refs@[j as int].repo_name@);
                }
                assert(rem.drop_first() =~= rs.skip(i + 1));
                assert(forall|t: int|
                    0 <= t < k - 1 ==> (#[trigger] rs.skip(i + 1)[t]).repo == rem[0].repo);
                if j < n {
                    assert(rs.skip(i + 1)[k - 1].repo != rem[0].repo);
                }
                lemma_run_len_at(rs.skip(i + 1), rem[0].repo, k - 1);
                assert(render_groups(rem) == render_group(rem.subrange(0, k as int))
                    + render_groups(rem.skip(k as int)));
                assert(rem.subrange(0, k as int) =~= rs.subrange(i as int, j as int));
                assert(rem.skip(k as int) =~= rs.skip(j as int));
            }
            let mut group: Vec<RepoPackageReference> = Vec::new();
            let mut t: usize = i;
            while t < j
                invariant
                    i <= t <= j,
                    group.deep_view() =~= rs.subrange(i as int, t as int),
                decreases j - t,
            {
                let ghost prevg = group.deep_view();
                group.push(refs[t].clone());
                proof {
                    assert(group.deep_view() =~= prevg.push(rs[t as int]));
                    assert(prevg.push(rs[t as int]) =~= rs.subrange(i as int, t + 1));
                }
                t += 1;
            }
            let sorted = sort_refs_desc(group);
            let ghost before_group = out@;
            out.append("## ");
            let upper = uppercase(refs[i].repo_name.as_str());
            out.append(upper.as_str());
            out.append("\n");
            out.append("\n");
            append_lines(&mut out, &sorted);
            proof {
                assert(out@ =~= before_group + render_group(rs.subrange(i as int, j as int)));
                assert(render_groups(rs) == out@ + render_groups(rs.skip(j as int)));
            }
            i = j;
        }
        proof {
            assert(rs.skip(n as int) =~= Seq::<RepoPackageReferenceData>::empty());
            assert(render_groups(rs.skip(n as int)) == Seq::<char>::empty());
            assert(out@ + Seq::<char>::empty() =~= out@);
        }
        out.append("\n\n");
        proof {
            assert(out@ =~= report_rendering(rs));
        }
        out
    }
}

} // verus!
