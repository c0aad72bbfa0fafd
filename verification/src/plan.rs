//! The install plan: what a resolved manifest means against the packages
//! installed on the host, and its summary text.
use vstd::prelude::*;
use crate::manifest::{
    resolved_build_options, source_label_view, BuildOptions, BuildOptionsView, PackageSource,
    PackageSourceView, ResolvedManifest,
};
use crate::text::{decimal, decimal_string};

verus! {

/// A manifest package as the plan sees it.
#[derive(Debug)]
pub struct PlanPackage {
    pub name: String,
    pub source: PackageSource,
    pub url: Option<String>,
    pub build_options: BuildOptions,
    pub installed: bool,
}

/// A plan package as plain values.
pub struct PlanPackageView {
    pub name: Seq<char>,
    pub source: PackageSourceView,
    pub url: Option<String>,
    pub build_options: BuildOptionsView,
    pub installed: bool,
}

impl View for PlanPackage {
    type V = PlanPackageView;

    open spec fn view(&self) -> PlanPackageView {
        PlanPackageView {
            name: self.name@,
            source: self.source@,
            url: self.url,
            build_options: self.build_options@,
            installed: self.installed,
        }
    }
}

impl Clone for PlanPackage {
    fn clone(&self) -> (r: Self)
        ensures
            r@ == self@,
    {
        PlanPackage {
            name: self.name.clone(),
            source: self.source.clone(),
            url: self.url.clone(),
            build_options: self.build_options.clone(),
            installed: self.installed,
        }
    }
}

/// What installing a manifest would do.
pub struct InstallPlan {
    pub packages: Vec<PlanPackage>,
    pub missing_packages: Vec<PlanPackage>,
    pub undeclared_installed: Vec<String>,
    pub prune_undeclared: bool,
}

/// The views of a list of plan packages.
pub open spec fn plan_views(s: Seq<PlanPackage>) -> Seq<PlanPackageView> {
    s.map_values(|p: PlanPackage| p@)
}

/// Whether `name` is among `names`.
pub open spec fn contains_name(names: Seq<String>, name: Seq<char>) -> bool {
    exists|j: int| 0 <= j < names.len() && #[trigger] names[j]@ == name
}

/// The plan packages that are not installed yet, in order.
pub open spec fn not_installed(s: Seq<PlanPackageView>) -> Seq<PlanPackageView>
    decreases s.len(),
{
    if s.len() == 0 {
        s
    } else if s.last().installed {
        not_installed(s.drop_last())
    } else {
        not_installed(s.drop_last()).push(s.last())
    }
}

/// How many of the plan packages are installed.
pub open spec fn count_installed(s: Seq<PlanPackageView>) -> nat
    decreases s.len(),
{
    if s.len() == 0 {
        0
    } else {
        count_installed(s.drop_last()) + if s.last().installed {
            1nat
        } else {
            0nat
        }
    }
}

/// The installed names that the manifest does not declare, in order.
pub open spec fn undeclared(installed: Seq<String>, manifest: ResolvedManifest) -> Seq<String>
    decreases installed.len(),
{
    if installed.len() == 0 {
        installed
    } else {
        let rest = undeclared(installed.drop_last(), manifest);
        if declares(manifest, installed.last()@) {
            rest
        } else {
            rest.push(installed.last())
        }
    }
}

/// Whether the manifest declares a package of this name.
pub open spec fn declares(manifest: ResolvedManifest, name: Seq<char>) -> bool {
    exists|j: int| 0 <= j < manifest.packages@.len() && #[trigger] manifest.packages@[j].name@ == name
}

/// Whether the manifest asks for undeclared packages to be removed.
pub open spec fn prunes(manifest: ResolvedManifest) -> bool {
    manifest.options.remove_undeclared == Some(true)
}

/// The plan package for the manifest package at position `i`.
pub open spec fn plan_package(manifest: ResolvedManifest, installed: Seq<String>, i: int) -> PlanPackageView {
    let p = manifest.packages@[i];
    PlanPackageView {
        name: p.name@,
        source: p.source@,
        url: p.url,
        build_options: resolved_build_options(p.build_options, manifest.options.default_build_options),
        installed: contains_name(installed, p.name@),
    }
}

/// The installed plan packages and those to install add up to all of
/// them, and every one to install is an uninstalled package of the plan.
pub proof fn lemma_installed_and_missing_partition(s: Seq<PlanPackageView>)
    ensures
        count_installed(s) + not_installed(s).len() == s.len(),
        forall|k: int|
            0 <= k < not_installed(s).len() ==> !(#[trigger] not_installed(s)[k]).installed
                && exists|j: int| 0 <= j < s.len() && s[j] == not_installed(s)[k],
    decreases s.len(),
{
    if s.len() > 0 {
        let p = s.drop_last();
        lemma_installed_and_missing_partition(p);
        let n = not_installed(p);
        assert forall|k: int| 0 <= k < not_installed(s).len() implies !(#[trigger] not_installed(
            s,
        )[k]).installed && exists|j: int| 0 <= j < s.len() && s[j] == not_installed(s)[k] by {
            if k < n.len() {
                assert(not_installed(s)[k] == n[k]);
                let j = choose|j: int| 0 <= j < p.len() && p[j] == n[k];
                assert(s[j] == p[j]);
            } else {
                assert(not_installed(s)[k] == s.last());
                assert(s[s.len() - 1] == s.last());
            }
        }
    }
}

/// A name is listed for pruning exactly when it is installed and the
/// manifest does not declare it.
pub proof fn lemma_undeclared_exact(installed: Seq<String>, manifest: ResolvedManifest, name: Seq<char>)
    ensures
        contains_name(undeclared(installed, manifest), name) <==> contains_name(installed, name)
            && !declares(manifest, name),
    decreases installed.len(),
{
    if installed.len() > 0 {
        let p = installed.drop_last();
        let u = undeclared(p, manifest);
        lemma_undeclared_exact(p, manifest, name);
        if contains_name(installed, name) {
            let j = choose|j: int| 0 <= j < installed.len() && #[trigger] installed[j]@ == name;
            if j < p.len() {
                assert(p[j] == installed[j]);
            }
        }
        if contains_name(p, name) {
            let j = choose|j: int| 0 <= j < p.len() && #[trigger] p[j]@ == name;
            assert(installed[j] == p[j]);
        }
        if contains_name(u, name) {
            let j = choose|j: int| 0 <= j < u.len() && #[trigger] u[j]@ == name;
            assert(u.push(installed.last())[j] == u[j]);
        }
        if contains_name(undeclared(installed, manifest), name) && !contains_name(u, name) {
            let v = undeclared(installed, manifest);
            let j = choose|j: int| 0 <= j < v.len() && #[trigger] v[j]@ == name;
            assert(installed[installed.len() - 1] == installed.last());
        }
        if !declares(manifest, installed.last()@) && installed.last()@ == name {
            let v = u.push(installed.last());
            assert(v[u.len() as int]@ == name);
        }
    }
}

/// The packages still to install are exactly the uninstalled plan
/// packages, in their order, and the installed count counts exactly the
/// installed ones.
pub proof fn lemma_missing_are_the_uninstalled(s: Seq<PlanPackageView>)
    ensures
        not_installed(s) == s.filter(|p: PlanPackageView| !p.installed),
        count_installed(s) == s.filter(|p: PlanPackageView| p.installed).len(),
    decreases s.len(),
{
    reveal_with_fuel(Seq::<PlanPackageView>::filter, 1);
    if s.len() > 0 {
        lemma_missing_are_the_uninstalled(s.drop_last());
    }
}

/// No two of these names are the same.
pub open spec fn names_unique(names: Seq<String>) -> bool {
    forall|i: int, j: int|
        0 <= i < names.len() && 0 <= j < names.len() && i != j ==> #[trigger] names[i]@
            != #[trigger] names[j]@
}

/// The prune list repeats no name when the installed names repeat none.
pub proof fn lemma_undeclared_unique(installed: Seq<String>, manifest: ResolvedManifest)
    requires
        names_unique(installed),
    ensures
        names_unique(undeclared(installed, manifest)),
    decreases installed.len(),
{
    if installed.len() > 0 {
        let p = installed.drop_last();
        assert(names_unique(p)) by {
            assert forall|i: int, j: int|
                0 <= i < p.len() && 0 <= j < p.len() && i != j implies #[trigger] p[i]@
                    != #[trigger] p[j]@ by {
                assert(p[i] == installed[i] && p[j] == installed[j]);
            }
        }
        lemma_undeclared_unique(p, manifest);
        let u = undeclared(p, manifest);
        let last = installed.last();
        if !declares(manifest, last@) {
            lemma_undeclared_exact(p, manifest, last@);
            if contains_name(p, last@) {
                let j = choose|j: int| 0 <= j < p.len() && #[trigger] p[j]@ == last@;
                assert(installed[j] == p[j]);
                assert(installed[installed.len() - 1] == last);
            }
            let v = u.push(last);
            assert forall|i: int, j: int|
                0 <= i < v.len() && 0 <= j < v.len() && i != j implies #[trigger] v[i]@
                    != #[trigger] v[j]@ by {
                if i < u.len() && j < u.len() {
                    assert(v[i] == u[i] && v[j] == u[j]);
                } else if i < u.len() {
                    assert(v[i] == u[i]);
                    assert(v[j] == last);
                    if u[i]@ == last@ {
                        assert(contains_name(u, last@));
                    }
                } else {
                    assert(v[j] == u[j]);
                    assert(v[i] == last);
                    if u[j]@ == last@ {
                        assert(contains_name(u, last@));
                    }
                }
            }
        }
    }
}

/// The label a source is listed with in the summary.
pub fn source_label(source: &PackageSource) -> (r: String)
    ensures
        r@ == source_label_view(source@),
{
    source.label()
}

/// The summary lines for the undeclared packages: at most the first twenty
/// names, then how many more there are.
pub open spec fn undeclared_lines(names: Seq<String>) -> Seq<Seq<char>> {
    let shown = if names.len() > 20 {
        names.take(20)
    } else {
        names
    };
    let listed = shown.map_values(|n: String| "    - "@ + n@);
    if names.len() > 20 {
        listed.push("    ...and "@ + decimal((names.len() - 20) as nat) + " more"@)
    } else {
        listed
    }
}

/// The summary of a plan, line by line.
pub open spec fn summary_spec(plan: InstallPlan) -> Seq<Seq<char>> {
    let pkgs = plan_views(plan.packages@);
    let missing = plan_views(plan.missing_packages@);
    let head = seq![
        "Arx dry-run package plan summary:"@,
        "  manifest packages: "@ + decimal(pkgs.len()),
        "  already installed: "@ + decimal(count_installed(pkgs)),
        "  packages that would be installed: "@ + decimal(missing.len()),
    ];
    let candidates = if missing.len() > 0 {
        seq!["  install candidates:"@] + missing.map_values(
            |p: PlanPackageView| "    - "@ + p.name + " ("@ + source_label_view(p.source) + ")"@,
        )
    } else {
        Seq::<Seq<char>>::empty()
    };
    let prune = if plan.prune_undeclared {
        seq![
            "  prune undeclared packages: enabled"@,
            "  undeclared installed packages: "@ + decimal(plan.undeclared_installed@.len()),
        ] + undeclared_lines(plan.undeclared_installed@)
    } else {
        seq!["  prune undeclared packages: disabled"@]
    };
    head + candidates + prune + seq!["  dry run: no changes will be applied"@]
}

/// How the summary is laid out: the header and the three counts, the
/// packages to install with their sources where there are any, then
/// whether pruning is enabled, and, only where it is, how many installed
/// packages are undeclared and the first twenty of their names, then the
/// closing line.
pub proof fn lemma_summary_layout(plan: InstallPlan)
    ensures
        ({
            let s = summary_spec(plan);
            let pkgs = plan_views(plan.packages@);
            let missing = plan_views(plan.missing_packages@);
            let names = plan.undeclared_installed@;
            let k = if missing.len() > 0 {
                5 + missing.len() as int
            } else {
                4int
            };
            let shown = if names.len() > 20 {
                20int
            } else {
                names.len() as int
            };
            &&& s[0] == "Arx dry-run package plan summary:"@
            &&& s[1] == "  manifest packages: "@ + decimal(pkgs.len())
            &&& s[2] == "  already installed: "@ + decimal(
                pkgs.filter(|p: PlanPackageView| p.installed).len(),
            )
            &&& s[3] == "  packages that would be installed: "@ + decimal(missing.len())
            &&& missing.len() > 0 ==> s[4] == "  install candidates:"@
            &&& forall|j: int|
                #![trigger missing[j]]
                0 <= j < missing.len() ==> s[5 + j] == "    - "@ + missing[j].name + " ("@
                    + source_label_view(missing[j].source) + ")"@
            &&& plan.prune_undeclared ==> {
                &&& s[k] == "  prune undeclared packages: enabled"@
                &&& s[k + 1] == "  undeclared installed packages: "@ + decimal(names.len())
                &&& forall|j: int|
                    #![trigger names[j]]
                    0 <= j < shown ==> s[k + 2 + j] == "    - "@ + names[j]@
                &&& names.len() > 20 ==> s[k + 22] == "    ...and "@ + decimal(
                    (names.len() - 20) as nat,
                ) + " more"@
                &&& s.len() == k + 2 + shown + (if names.len() > 20 {
                    1int
                } else {
                    0int
                }) + 1
            }
            &&& !plan.prune_undeclared ==> s[k] == "  prune undeclared packages: disabled"@ && s.len()
                == k + 2
            &&& s.last() == "  dry run: no changes will be applied"@
        }),
{
    let pkgs = plan_views(plan.packages@);
    let missing = plan_views(plan.missing_packages@);
    let names = plan.undeclared_installed@;
    lemma_missing_are_the_uninstalled(pkgs);
    let head = seq![
        "Arx dry-run package plan summary:"@,
        "  manifest packages: "@ + decimal(pkgs.len()),
        "  already installed: "@ + decimal(count_installed(pkgs)),
        "  packages that would be installed: "@ + decimal(missing.len()),
    ];
    let listed = missing.map_values(
        |p: PlanPackageView| "    - "@ + p.name + " ("@ + source_label_view(p.source) + ")"@,
    );
    let candidates = if missing.len() > 0 {
        seq!["  install candidates:"@] + listed
    } else {
        Seq::<Seq<char>>::empty()
    };
    let prune = if plan.prune_undeclared {
        seq![
            "  prune undeclared packages: enabled"@,
            "  undeclared installed packages: "@ + decimal(names.len()),
        ] + undeclared_lines(names)
    } else {
        seq!["  prune undeclared packages: disabled"@]
    };
    let tail = seq!["  dry run: no changes will be applied"@];
    let s = summary_spec(plan);
    assert(s == head + candidates + prune + tail);
    let k = head.len() as int + candidates.len() as int;
    assert(k == if missing.len() > 0 { 5 + missing.len() as int } else { 4int });
    assert forall|j: int| 0 <= j < missing.len() implies s[5 + j] == "    - "@ + (
    #[trigger] missing[j]).name + " ("@ + source_label_view(missing[j].source) + ")"@ by {
        assert(candidates[1 + j] == listed[j]);
        assert(s[5 + j] == candidates[1 + j]);
    }
    assert forall|i: int| 0 <= i < prune.len() implies s[k + i] == #[trigger] prune[i] by {
    }
    assert(s.last() == tail[0]);
    if plan.prune_undeclared {
        let shown_names = if names.len() > 20 {
            names.take(20)
        } else {
            names
        };
        let ul = shown_names.map_values(|n: String| "    - "@ + n@);
        assert forall|j: int| 0 <= j < shown_names.len() implies prune[2 + j] == "    - "@ + (
        #[trigger] names[j])@ by {
            assert(shown_names[j] == names[j]);
            assert(undeclared_lines(names)[j] == ul[j]);
            assert(prune[2 + j] == undeclared_lines(names)[j]);
        }
        assert forall|j: int| #![trigger names[j]] 0 <= j < shown_names.len() implies s[k + 2 + j]
            == "    - "@ + names[j]@ by {
            assert(s[k + (2 + j)] == prune[2 + j]);
        }
        if names.len() > 20 {
            assert(prune[22] == undeclared_lines(names)[20]);
            assert(s[k + 22] == prune[22]);
        }
    }
}

fn concat3(a: &str, b: &str, c: &str) -> (r: String)
    ensures
        r@ == a@ + b@ + c@,
{
    let mut r = String::from_str(a);
    r.append(b);
    r.append(c);
    r
}

fn name_in(names: &Vec<String>, name: &String) -> (r: bool)
    ensures
        r == contains_name(names@, name@),
{
    let mut i: usize = 0;
    while i < names.len()
        invariant
            0 <= i <= names@.len(),
            forall|j: int| 0 <= j < i ==> #[trigger] names@[j]@ != name@,
        decreases names@.len() - i,
    {
        if names[i] == *name {
            return true;
        }
        i = i + 1;
    }
    false
}

fn declared_in(manifest: &ResolvedManifest, name: &String) -> (r: bool)
    ensures
        r == declares(*manifest, name@),
{
    let mut i: usize = 0;
    while i < manifest.packages.len()
        invariant
            0 <= i <= manifest.packages@.len(),
            forall|j: int| 0 <= j < i ==> #[trigger] manifest.packages@[j].name@ != name@,
        decreases manifest.packages@.len() - i,
    {
        if manifest.packages[i].name == *name {
            return true;
        }
        i = i + 1;
    }
    false
}

impl InstallPlan {
    /// The plan for `manifest` against the packages named in `installed`
    /// (the names in the host's local package database): every manifest
    /// package with its resolved build settings and whether it is
    /// installed; those not installed yet; and, where the manifest asks for
    /// pruning, the installed packages it does not declare.
    pub fn from_manifest(manifest: &ResolvedManifest, installed: &Vec<String>) -> (r: InstallPlan)
        ensures
            r.packages@.len() == manifest.packages@.len(),
            forall|i: int|
                0 <= i < r.packages@.len() ==> #[trigger] r.packages@[i]@ == plan_package(
                    *manifest,
                    installed@,
                    i,
                ),
            plan_views(r.missing_packages@) == not_installed(plan_views(r.packages@)),
            plan_views(r.missing_packages@) == plan_views(r.packages@).filter(
                |p: PlanPackageView| !p.installed,
            ),
            r.prune_undeclared == prunes(*manifest),
            r.undeclared_installed@ == if prunes(*manifest) {
                undeclared(installed@, *manifest)
            } else {
                Seq::<String>::empty()
            },
            names_unique(installed@) ==> names_unique(r.undeclared_installed@),
    {
        let defaults = match &manifest.options.default_build_options {
            Some(d) => Some(d),
            None => None,
        };
        let mut packages: Vec<PlanPackage> = Vec::new();
        let mut i: usize = 0;
        while i < manifest.packages.len()
            invariant
                0 <= i <= manifest.packages@.len(),
                defaults == match manifest.options.default_build_options {
                    Some(d) => Some(&d),
                    None => None,
                },
                packages@.len() == i,
                forall|k: int|
                    0 <= k < i ==> #[trigger] packages@[k]@ == plan_package(*manifest, installed@, k),
            decreases manifest.packages@.len() - i,
        {
            let package = &manifest.packages[i];
            let p = PlanPackage {
                name: package.name.clone(),
                source: package.source.clone(),
                url: package.url.clone(),
                build_options: package.resolve_build_options(defaults),
                installed: name_in(installed, &package.name),
            };
            packages.push(p);
            i = i + 1;
        }
        let mut missing: Vec<PlanPackage> = Vec::new();
        let mut k: usize = 0;
        while k < packages.len()
            invariant
                0 <= k <= packages@.len(),
                plan_views(missing@) == not_installed(plan_views(packages@.take(k as int))),
            decreases packages@.len() - k,
        {
            assert(plan_views(packages@.take(k + 1)).drop_last() =~= plan_views(packages@.take(k as int)));
            if !packages[k].installed {
                let ghost before = missing@;
                let c = packages[k].clone();
                missing.push(c);
                assert(plan_views(missing@) =~= plan_views(before).push(packages@[k as int]@));
            }
            k = k + 1;
        }
        assert(packages@.take(packages@.len() as int) =~= packages@);
        proof {
            lemma_missing_are_the_uninstalled(plan_views(packages@));
        }
        let prune = match manifest.options.remove_undeclared {
            Some(b) => b,
            None => false,
        };
        let mut undeclared_installed: Vec<String> = Vec::new();
        if prune {
            let mut j: usize = 0;
            while j < installed.len()
                invariant
                    0 <= j <= installed@.len(),
                    undeclared_installed@ == undeclared(installed@.take(j as int), *manifest),
                decreases installed@.len() - j,
            {
                assert(installed@.take(j + 1).drop_last() =~= installed@.take(j as int));
                if !declared_in(manifest, &installed[j]) {
                    undeclared_installed.push(installed[j].clone());
                }
                j = j + 1;
            }
            assert(installed@.take(installed@.len() as int) =~= installed@);
            proof {
                if names_unique(installed@) {
                    lemma_undeclared_unique(installed@, *manifest);
                }
            }
        }
        InstallPlan {
            packages,
            missing_packages: missing,
            undeclared_installed,
            prune_undeclared: prune,
        }
    }
}

/// The texts of a list of lines.
pub open spec fn texts(lines: Seq<String>) -> Seq<Seq<char>> {
    lines.map_values(|l: String| l@)
}

fn count_installed_of(pkgs: &Vec<PlanPackage>) -> (r: usize)
    ensures
        r == count_installed(plan_views(pkgs@)),
{
    let mut n: usize = 0;
    let mut i: usize = 0;
    while i < pkgs.len()
        invariant
            0 <= i <= pkgs@.len(),
            n == count_installed(plan_views(pkgs@.take(i as int))),
            n <= i,
        decreases pkgs@.len() - i,
    {
        assert(plan_views(pkgs@.take(i + 1)).drop_last() =~= plan_views(pkgs@.take(i as int)));
        if pkgs[i].installed {
            n = n + 1;
        }
        i = i + 1;
    }
    assert(pkgs@.take(pkgs@.len() as int) =~= pkgs@);
    n
}

impl InstallPlan {
    /// The plan's summary, one line per element, as it is printed.
    pub fn summary_lines(&self) -> (r: Vec<String>)
        ensures
            texts(r@) == summary_spec(*self),
    {
        let ghost pkgs = plan_views(self.packages@);
        let ghost missing = plan_views(self.missing_packages@);
        let mut lines: Vec<String> = Vec::new();
        lines.push(String::from_str("Arx dry-run package plan summary:"));
        let mut l = String::from_str("  manifest packages: ");
        l.append(decimal_string(self.packages.len()).as_str());
        lines.push(l);
        let mut l = String::from_str("  already installed: ");
        l.append(decimal_string(count_installed_of(&self.packages)).as_str());
        lines.push(l);
        let mut l = String::from_str("  packages that would be installed: ");
        l.append(decimal_string(self.missing_packages.len()).as_str());
        lines.push(l);
        let ghost head = seq![
            "Arx dry-run package plan summary:"@,
            "  manifest packages: "@ + decimal(pkgs.len()),
            "  already installed: "@ + decimal(count_installed(pkgs)),
            "  packages that would be installed: "@ + decimal(missing.len()),
        ];
        assert(texts(lines@) =~= head);
        if self.missing_packages.len() > 0 {
            lines.push(String::from_str("  install candidates:"));
            let ghost base = texts(lines@);
            let mut i: usize = 0;
            while i < self.missing_packages.len()
                invariant
                    0 <= i <= self.missing_packages@.len(),
                    missing == plan_views(self.missing_packages@),
                    texts(lines@) == base + missing.take(i as int).map_values(
                        |p: PlanPackageView| "    - "@ + p.name + " ("@ + source_label_view(p.source) + ")"@,
                    ),
                decreases self.missing_packages@.len() - i,
            {
                let p = &self.missing_packages[i];
                let mut l = String::from_str("    - ");
                l.append(p.name.as_str());
                l.append(" (");
                l.append(source_label(&p.source).as_str());
                l.append(")");
                let ghost before = texts(lines@);
                lines.push(l);
                assert(missing.take(i + 1) =~= missing.take(i as int).push(missing[i as int]));
                assert(texts(lines@) =~= before.push(l@));
                i = i + 1;
            }
            assert(missing.take(missing.len() as int) =~= missing);
        }
        let ghost candidates = if missing.len() > 0 {
            seq!["  install candidates:"@] + missing.map_values(
                |p: PlanPackageView| "    - "@ + p.name + " ("@ + source_label_view(p.source) + ")"@,
            )
        } else {
            Seq::<Seq<char>>::empty()
        };
        assert(texts(lines@) =~= head + candidates);
        let ghost before_prune = texts(lines@);
        if self.prune_undeclared {
            lines.push(String::from_str("  prune undeclared packages: enabled"));
            let mut l = String::from_str("  undeclared installed packages: ");
            l.append(decimal_string(self.undeclared_installed.len()).as_str());
            lines.push(l);
            let ghost base = texts(lines@);
            let names = &self.undeclared_installed;
            let shown = if names.len() > 20 { 20 } else { names.len() };
            let mut i: usize = 0;
            while i < shown
                invariant
                    0 <= i <= shown <= names@.len(),
                    shown == if names@.len() > 20 { 20 } else { names@.len() },
                    texts(lines@) == base + names@.take(i as int).map_values(|n: String| "    - "@ + n@),
                decreases shown - i,
            {
                let ghost before = texts(lines@);
                let l = concat3("    - ", names[i].as_str(), "");
                lines.push(l);
                assert(""@ =~= Seq::<char>::empty()) by {
                    reveal_strlit("");
                }
                assert(names@.take(i + 1) =~= names@.take(i as int).push(names@[i as int]));
                assert(texts(lines@) =~= before.push(l@));
                i = i + 1;
            }
            let ghost shown_names = if names@.len() > 20 { names@.take(20) } else { names@ };
            let ghost listed = shown_names.map_values(|n: String| "    - "@ + n@);
            assert(names@.take(shown as int) =~= shown_names);
            assert(texts(lines@) =~= base + listed);
            if names.len() > 20 {
                let l = concat3("    ...and ", decimal_string(names.len() - 20).as_str(), " more");
                let ghost before = texts(lines@);
                lines.push(l);
                assert(texts(lines@) =~= before.push(l@));
                assert(undeclared_lines(names@) == listed.push(l@));
                assert(texts(lines@) =~= base + undeclared_lines(names@));
            } else {
                assert(undeclared_lines(names@) == listed);
            }
            assert(texts(lines@) =~= before_prune + (seq![
                "  prune undeclared packages: enabled"@,
                "  undeclared installed packages: "@ + decimal(self.undeclared_installed@.len()),
            ] + undeclared_lines(self.undeclared_installed@)));
        } else {
            lines.push(String::from_str("  prune undeclared packages: disabled"));
            assert(texts(lines@) =~= before_prune + seq!["  prune undeclared packages: disabled"@]);
        }
        let ghost prune_lines = if self.prune_undeclared {
            seq![
                "  prune undeclared packages: enabled"@,
                "  undeclared installed packages: "@ + decimal(self.undeclared_installed@.len()),
            ] + undeclared_lines(self.undeclared_installed@)
        } else {
            seq!["  prune undeclared packages: disabled"@]
        };
        assert(texts(lines@) =~= head + candidates + prune_lines);
        lines.push(String::from_str("  dry run: no changes will be applied"));
        assert(texts(lines@) =~= summary_spec(*self));
        lines
    }
}

} // verus!
