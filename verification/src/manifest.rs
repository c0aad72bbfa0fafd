//! The manifest data model: package sources, build options, packages,
//! manifest options, and the rules that a resolved manifest must obey.
use vstd::prelude::*;
use crate::text::{
    ascii_lower, ascii_lower_chars, chars_of, is_blank, is_blank_str, range_equals,
};

verus! {

/// Where a package comes from.  Any source name other than the four
/// well-known ones names a custom repository.
#[derive(Debug)]
pub enum PackageSource {
    Core,
    Extra,
    Aur,
    Git,
    Repo(String),
}

/// A package source with its repository name as plain characters.
pub enum PackageSourceView {
    Core,
    Extra,
    Aur,
    Git,
    Repo(Seq<char>),
}

impl View for PackageSource {
    type V = PackageSourceView;

    open spec fn view(&self) -> PackageSourceView {
        match self {
            PackageSource::Core => PackageSourceView::Core,
            PackageSource::Extra => PackageSourceView::Extra,
            PackageSource::Aur => PackageSourceView::Aur,
            PackageSource::Git => PackageSourceView::Git,
            PackageSource::Repo(name) => PackageSourceView::Repo(name@),
        }
    }
}

impl Clone for PackageSource {
    fn clone(&self) -> (r: Self)
        ensures
            r == *self,
    {
        match self {
            PackageSource::Core => PackageSource::Core,
            PackageSource::Extra => PackageSource::Extra,
            PackageSource::Aur => PackageSource::Aur,
            PackageSource::Git => PackageSource::Git,
            PackageSource::Repo(name) => PackageSource::Repo(name.clone()),
        }
    }
}

/// The text a source is written as in a manifest.
pub open spec fn source_label_view(s: PackageSourceView) -> Seq<char> {
    match s {
        PackageSourceView::Core => "core"@,
        PackageSourceView::Extra => "extra"@,
        PackageSourceView::Aur => "aur"@,
        PackageSourceView::Git => "git"@,
        PackageSourceView::Repo(name) => name,
    }
}

/// The source that a manifest's `source` text names.
pub open spec fn parse_source_label(s: Seq<char>) -> PackageSourceView {
    if s == "core"@ {
        PackageSourceView::Core
    } else if s == "extra"@ {
        PackageSourceView::Extra
    } else if s == "aur"@ {
        PackageSourceView::Aur
    } else if s == "git"@ {
        PackageSourceView::Git
    } else {
        PackageSourceView::Repo(s)
    }
}

/// Whether `s` is one of the four well-known source names.
pub open spec fn is_reserved_label(s: Seq<char>) -> bool {
    s == "core"@ || s == "extra"@ || s == "aur"@ || s == "git"@
}

impl PackageSource {
    /// The source named by `text`, as a manifest's `source` field is read.
    pub fn from_label(text: &str) -> (r: PackageSource)
        ensures
            r@ == parse_source_label(text@),
    {
        let s = text.to_owned();
        if s == String::from_str("core") {
            PackageSource::Core
        } else if s == String::from_str("extra") {
            PackageSource::Extra
        } else if s == String::from_str("aur") {
            PackageSource::Aur
        } else if s == String::from_str("git") {
            PackageSource::Git
        } else {
            PackageSource::Repo(s)
        }
    }

    /// The text this source is written as (and displayed as).
    pub fn label(&self) -> (r: String)
        ensures
            r@ == source_label_view(self@),
    {
        match self {
            PackageSource::Core => String::from_str("core"),
            PackageSource::Extra => String::from_str("extra"),
            PackageSource::Aur => String::from_str("aur"),
            PackageSource::Git => String::from_str("git"),
            PackageSource::Repo(name) => name.clone(),
        }
    }
}

/// Reading back the label of a source gives that source, except for a
/// custom repository that carries one of the four well-known names.
pub proof fn lemma_source_label_roundtrip(s: PackageSourceView)
    requires
        !(s matches PackageSourceView::Repo(n) && is_reserved_label(n)),
    ensures
        parse_source_label(source_label_view(s)) == s,
{
    reveal_strlit("core");
    reveal_strlit("extra");
    reveal_strlit("aur");
    reveal_strlit("git");
    assert("core"@.len() == 4 && "extra"@.len() == 5 && "aur"@.len() == 3 && "git"@.len() == 3);
    assert("aur"@[0] != "git"@[0]);
}

/// Writing out a source read from a text gives back that text.
pub proof fn lemma_label_of_parsed_source(text: Seq<char>)
    ensures
        source_label_view(parse_source_label(text)) == text,
{
}

/// Per-package build settings.
#[derive(Debug)]
pub struct BuildOptions {
    pub ignore_default: bool,
    pub language: Option<String>,
    pub toolchain: Option<String>,
    pub build_flags: Option<Vec<String>>,
}

/// Build settings with the flags as a sequence.
pub struct BuildOptionsView {
    pub ignore_default: bool,
    pub language: Option<String>,
    pub toolchain: Option<String>,
    pub build_flags: Option<Seq<String>>,
}

/// The view of an optional list of texts.
pub open spec fn strings_view(o: Option<Vec<String>>) -> Option<Seq<String>> {
    match o {
        Some(v) => Some(v@),
        None => None,
    }
}

impl View for BuildOptions {
    type V = BuildOptionsView;

    open spec fn view(&self) -> BuildOptionsView {
        BuildOptionsView {
            ignore_default: self.ignore_default,
            language: self.language,
            toolchain: self.toolchain,
            build_flags: strings_view(self.build_flags),
        }
    }
}

/// The build settings of a package that gives none.
pub open spec fn empty_build_options() -> BuildOptionsView {
    BuildOptionsView { ignore_default: false, language: None, toolchain: None, build_flags: None }
}

impl Default for BuildOptions {
    fn default() -> (r: Self)
        ensures
            r@ == empty_build_options(),
    {
        BuildOptions { ignore_default: false, language: None, toolchain: None, build_flags: None }
    }
}

fn clone_strings(o: &Option<Vec<String>>) -> (r: Option<Vec<String>>)
    ensures
        strings_view(r) == strings_view(*o),
{
    match o {
        Some(v) => Some(v.clone()),
        None => None,
    }
}

impl Clone for BuildOptions {
    fn clone(&self) -> (r: Self)
        ensures
            r@ == self@,
    {
        BuildOptions {
            ignore_default: self.ignore_default,
            language: self.language.clone(),
            toolchain: self.toolchain.clone(),
            build_flags: clone_strings(&self.build_flags),
        }
    }
}

/// Manifest-wide default toolchains and flags, per language family.
#[derive(Debug, Clone)]
pub struct DefaultBuildOptions {
    pub toolchain_c: Option<String>,
    pub toolchain_rust: Option<String>,
    pub build_flags_c: Option<Vec<String>>,
    pub build_flags_rust: Option<Vec<String>>,
}

/// Manifest-wide options.
#[derive(Debug, Clone)]
pub struct ManifestOptions {
    pub remove_undeclared: Option<bool>,
    pub default_build_options: Option<DefaultBuildOptions>,
}

impl Default for ManifestOptions {
    fn default() -> (r: Self)
        ensures
            r.remove_undeclared is None,
            r.default_build_options is None,
    {
        ManifestOptions { remove_undeclared: None, default_build_options: None }
    }
}

/// One package declaration.
#[derive(Debug, Clone)]
pub struct Package {
    pub name: String,
    pub source: PackageSource,
    pub url: Option<String>,
    pub depends: Option<Vec<String>>,
    pub build_inputs: Option<Vec<String>>,
    pub build_options: Option<BuildOptions>,
}

/// One manifest file as written: the files it includes, its packages and
/// its options.
#[derive(Debug, Clone)]
pub struct Manifest {
    pub includes: Option<Vec<String>>,
    pub packages: Vec<Package>,
    pub options: Option<ManifestOptions>,
}

/// A manifest with all its includes merged in.
#[derive(Debug, Clone)]
pub struct ResolvedManifest {
    pub packages: Vec<Package>,
    pub options: ManifestOptions,
}

/// Why a manifest is refused.
#[derive(Debug)]
pub enum ManifestError {
    /// A package name is empty or only white space.
    EmptyName,
    /// Two packages share this name.
    DuplicateName(String),
    /// A `git` package has no `url`.
    GitWithoutUrl,
    /// This manifest file is reached a second time while resolving includes.
    CircularInclude(String),
}

/// `a` where it is set, else `b`.
pub open spec fn or_else<T>(a: Option<T>, b: Option<T>) -> Option<T> {
    match a {
        Some(x) => Some(x),
        None => b,
    }
}

/// Whether a package before position `i` has the name of the package at `i`.
pub open spec fn name_taken_before(pkgs: Seq<Package>, i: int) -> bool {
    exists|j: int| 0 <= j < i && #[trigger] pkgs[j].name@ == pkgs[i].name@
}

/// What is wrong with the package at position `i`, checked in this order:
/// a blank name, a name already used before it, a `git` source without url.
pub open spec fn package_problem(pkgs: Seq<Package>, i: int) -> Option<ManifestError> {
    if is_blank(pkgs[i].name@) {
        Some(ManifestError::EmptyName)
    } else if name_taken_before(pkgs, i) {
        Some(ManifestError::DuplicateName(pkgs[i].name))
    } else if pkgs[i].source is Git && pkgs[i].url is None {
        Some(ManifestError::GitWithoutUrl)
    } else {
        None
    }
}

/// The first problem among the first `n` packages.
pub open spec fn first_problem_upto(pkgs: Seq<Package>, n: int) -> Option<ManifestError>
    decreases n,
{
    if n <= 0 {
        None
    } else {
        match first_problem_upto(pkgs, n - 1) {
            Some(e) => Some(e),
            None => package_problem(pkgs, n - 1),
        }
    }
}

/// The first problem of a package list, going through it in order.
pub open spec fn first_problem(pkgs: Seq<Package>) -> Option<ManifestError> {
    first_problem_upto(pkgs, pkgs.len() as int)
}

/// A package list is valid: every name is non-blank and used once, and
/// every `git` package has a url.
pub open spec fn packages_valid(pkgs: Seq<Package>) -> bool {
    forall|i: int| 0 <= i < pkgs.len() ==> #[trigger] package_problem(pkgs, i) is None
}

/// `base` with each option that `over` sets taken from `over`.
pub open spec fn merge_options_spec(base: ManifestOptions, over: ManifestOptions) -> ManifestOptions {
    ManifestOptions {
        remove_undeclared: or_else(over.remove_undeclared, base.remove_undeclared),
        default_build_options: or_else(over.default_build_options, base.default_build_options),
    }
}

/// `pkgs` with every package dropped whose name an earlier package has.
pub open spec fn dedupe_spec(pkgs: Seq<Package>) -> Seq<Package>
    decreases pkgs.len(),
{
    if pkgs.len() == 0 {
        Seq::<Package>::empty()
    } else {
        let d = dedupe_spec(pkgs.drop_last());
        if name_taken_before(pkgs, pkgs.len() - 1) {
            d
        } else {
            d.push(pkgs.last())
        }
    }
}

/// Whether some package of `pkgs` is named `name`.
pub open spec fn has_name(pkgs: Seq<Package>, name: Seq<char>) -> bool {
    exists|j: int| 0 <= j < pkgs.len() && #[trigger] pkgs[j].name@ == name
}

proof fn lemma_first_problem_none(pkgs: Seq<Package>, n: int)
    requires
        0 <= n <= pkgs.len(),
    ensures
        first_problem_upto(pkgs, n) is None <==> forall|i: int|
            0 <= i < n ==> #[trigger] package_problem(pkgs, i) is None,
    decreases n,
{
    if n > 0 {
        lemma_first_problem_none(pkgs, n - 1);
    }
}

proof fn lemma_first_problem_stable(pkgs: Seq<Package>, n: int, m: int)
    requires
        0 <= n <= m,
        first_problem_upto(pkgs, n) is Some,
    ensures
        first_problem_upto(pkgs, m) == first_problem_upto(pkgs, n),
    decreases m - n,
{
    if m > n {
        lemma_first_problem_stable(pkgs, n, m - 1);
    }
}

/// A package list has no problem exactly when it is valid.
pub proof fn lemma_valid_iff_no_problem(pkgs: Seq<Package>)
    ensures
        first_problem(pkgs) is None <==> packages_valid(pkgs),
{
    lemma_first_problem_none(pkgs, pkgs.len() as int);
}

/// Every package is fine on its own: a non-blank name, and a url where
/// the source is `git`.
pub open spec fn each_package_fine(pkgs: Seq<Package>) -> bool {
    forall|i: int|
        0 <= i < pkgs.len() ==> !is_blank((#[trigger] pkgs[i]).name@) && !(pkgs[i].source is Git
            && pkgs[i].url is None)
}

/// No two packages share a name.
pub open spec fn names_distinct(pkgs: Seq<Package>) -> bool {
    forall|i: int, j: int|
        0 <= i < pkgs.len() && 0 <= j < pkgs.len() && i != j ==> #[trigger] pkgs[i].name@
            != #[trigger] pkgs[j].name@
}

/// A package list is valid exactly when every package has a non-blank
/// name and, if its source is `git`, a url, and no two packages share a
/// name.
pub proof fn lemma_valid_means(pkgs: Seq<Package>)
    ensures
        first_problem(pkgs) is None <==> (forall|i: int|
            0 <= i < pkgs.len() ==> !is_blank((#[trigger] pkgs[i]).name@) && !(pkgs[i].source is Git
                && pkgs[i].url is None)) && (forall|i: int, j: int|
            0 <= i < pkgs.len() && 0 <= j < pkgs.len() && i != j ==> #[trigger] pkgs[i].name@
                != #[trigger] pkgs[j].name@),
{
    lemma_valid_iff_no_problem(pkgs);
    lemma_valid_split(pkgs);
}

proof fn lemma_valid_split(pkgs: Seq<Package>)
    ensures
        packages_valid(pkgs) <==> each_package_fine(pkgs) && names_distinct(pkgs),
{
    if packages_valid(pkgs) {
        assert forall|i: int| 0 <= i < pkgs.len() implies !is_blank((#[trigger] pkgs[i]).name@)
            && !(pkgs[i].source is Git && pkgs[i].url is None) by {
            assert(package_problem(pkgs, i) is None);
        }
        assert forall|i: int, j: int|
            0 <= i < pkgs.len() && 0 <= j < pkgs.len() && i != j implies #[trigger] pkgs[i].name@
                != #[trigger] pkgs[j].name@ by {
            if i < j {
                assert(package_problem(pkgs, j) is None);
                assert(!name_taken_before(pkgs, j));
            } else {
                assert(package_problem(pkgs, i) is None);
                assert(!name_taken_before(pkgs, i));
            }
        }
    }
    if each_package_fine(pkgs) && names_distinct(pkgs) {
        assert forall|i: int| 0 <= i < pkgs.len() implies #[trigger] package_problem(pkgs, i) is None by {
            assert(!is_blank(pkgs[i].name@));
            if name_taken_before(pkgs, i) {
                let j = choose|j: int| 0 <= j < i && #[trigger] pkgs[j].name@ == pkgs[i].name@;
                assert(pkgs[j].name@ != pkgs[i].name@);
            }
        }
    }
}

/// Whether some position of `perm` holds `k`.
pub open spec fn hits(perm: Seq<int>, k: int) -> bool {
    exists|i: int| 0 <= i < perm.len() && #[trigger] perm[i] == k
}

/// `b` is `a` reordered: `perm` is a bijection of the positions, and the
/// package at position `i` of `b` is the one at `perm[i]` of `a`.
pub open spec fn is_reordering(a: Seq<Package>, b: Seq<Package>, perm: Seq<int>) -> bool {
    &&& a.len() == b.len()
    &&& perm.len() == b.len()
    &&& forall|i: int| 0 <= i < perm.len() ==> 0 <= #[trigger] perm[i] < a.len()
    &&& forall|i: int, j: int|
        0 <= i < perm.len() && 0 <= j < perm.len() && i != j ==> #[trigger] perm[i] != #[trigger] perm[j]
    &&& forall|k: int| 0 <= k < a.len() ==> #[trigger] hits(perm, k)
    &&& forall|i: int| 0 <= i < b.len() ==> #[trigger] b[i] == a[perm[i]]
}

proof fn lemma_valid_transfers(a: Seq<Package>, b: Seq<Package>, perm: Seq<int>)
    requires
        is_reordering(a, b, perm),
        packages_valid(a),
    ensures
        packages_valid(b),
{
    lemma_valid_split(a);
    lemma_valid_split(b);
    assert forall|i: int| 0 <= i < b.len() implies !is_blank((#[trigger] b[i]).name@) && !(
    b[i].source is Git && b[i].url is None) by {
        assert(b[i] == a[perm[i]]);
        assert(0 <= perm[i] < a.len());
    }
    assert forall|i: int, j: int|
        0 <= i < b.len() && 0 <= j < b.len() && i != j implies #[trigger] b[i].name@
            != #[trigger] b[j].name@ by {
        assert(b[i] == a[perm[i]]);
        assert(b[j] == a[perm[j]]);
        assert(perm[i] != perm[j]);
        assert(0 <= perm[i] < a.len() && 0 <= perm[j] < a.len());
        assert(a[perm[i]].name@ != a[perm[j]].name@);
    }
}

/// Whether a package list is valid does not depend on the order of the
/// packages: reordering them neither makes a valid list invalid nor an
/// invalid one valid.
pub proof fn lemma_validity_ignores_order(a: Seq<Package>, b: Seq<Package>, perm: Seq<int>)
    requires
        is_reordering(a, b, perm),
    ensures
        first_problem(a) is None <==> first_problem(b) is None,
{
    lemma_valid_iff_no_problem(a);
    lemma_valid_iff_no_problem(b);
    if packages_valid(a) {
        lemma_valid_transfers(a, b, perm);
    }
    if packages_valid(b) {
        let inv = Seq::new(
            a.len(),
            |k: int| choose|i: int| 0 <= i < perm.len() && #[trigger] perm[i] == k,
        );
        assert forall|k: int| 0 <= k < a.len() implies 0 <= #[trigger] inv[k] < perm.len()
            && perm[inv[k]] == k by {
            assert(hits(perm, k));
        }
        assert(is_reordering(b, a, inv)) by {
            assert forall|k1: int, k2: int|
                0 <= k1 < inv.len() && 0 <= k2 < inv.len() && k1 != k2 implies #[trigger] inv[k1]
                    != #[trigger] inv[k2] by {
                assert(perm[inv[k1]] == k1);
                assert(perm[inv[k2]] == k2);
            }
            assert forall|i: int| 0 <= i < b.len() implies #[trigger] hits(inv, i) by {
                let k = perm[i];
                assert(0 <= k < a.len());
                assert(perm[inv[k]] == k);
                if inv[k] != i {
                    assert(0 <= inv[k] < perm.len());
                    assert(perm[inv[k]] == perm[i]);
                }
                assert(inv[k] == i);
                assert(hits(inv, i));
            }
            assert forall|k: int| 0 <= k < a.len() implies #[trigger] a[k] == b[inv[k]] by {
                assert(perm[inv[k]] == k);
                assert(b[inv[k]] == a[perm[inv[k]]]);
            }
        }
        lemma_valid_transfers(b, a, inv);
    }
}

proof fn lemma_dedupe_names(pkgs: Seq<Package>)
    ensures
        forall|x: Seq<char>| has_name(dedupe_spec(pkgs), x) <==> #[trigger] has_name(pkgs, x),
        forall|k: int|
            0 <= k < dedupe_spec(pkgs).len() ==> exists|j: int|
                0 <= j < pkgs.len() && #[trigger] dedupe_spec(pkgs)[k] == pkgs[j],
        forall|k1: int, k2: int|
            0 <= k1 < k2 < dedupe_spec(pkgs).len() ==> #[trigger] dedupe_spec(pkgs)[k1].name@
                != #[trigger] dedupe_spec(pkgs)[k2].name@,
    decreases pkgs.len(),
{
    if pkgs.len() > 0 {
        let p = pkgs.drop_last();
        let d = dedupe_spec(p);
        lemma_dedupe_names(p);
        let last = pkgs.last();
        assert forall|x: Seq<char>| has_name(pkgs, x) <==> #[trigger] has_name(p, x) || last.name@ == x by {
            if has_name(pkgs, x) {
                let j = choose|j: int| 0 <= j < pkgs.len() && #[trigger] pkgs[j].name@ == x;
                if j < pkgs.len() - 1 {
                    assert(p[j] == pkgs[j]);
                }
            }
            if has_name(p, x) {
                let j = choose|j: int| 0 <= j < p.len() && #[trigger] p[j].name@ == x;
                assert(pkgs[j] == p[j]);
            }
            if last.name@ == x {
                assert(pkgs[pkgs.len() - 1].name@ == x);
            }
        }
        if name_taken_before(pkgs, pkgs.len() - 1) {
            let j = choose|j: int| 0 <= j < pkgs.len() - 1 && #[trigger] pkgs[j].name@ == pkgs[pkgs.len() - 1].name@;
            assert(p[j] == pkgs[j]);
            assert(has_name(p, last.name@));
            assert(dedupe_spec(pkgs) == d);
            assert forall|x: Seq<char>| has_name(d, x) <==> #[trigger] has_name(pkgs, x) by {
                assert(has_name(d, x) <==> has_name(p, x));
            }
            assert forall|k: int| 0 <= k < d.len() implies exists|j: int|
                0 <= j < pkgs.len() && #[trigger] d[k] == pkgs[j] by {
                let j = choose|j: int| 0 <= j < p.len() && #[trigger] d[k] == p[j];
                assert(pkgs[j] == p[j]);
            }
        } else {
            let e = d.push(last);
            assert(dedupe_spec(pkgs) == e);
            assert forall|x: Seq<char>| has_name(e, x) <==> #[trigger] has_name(d, x) || last.name@ == x by {
                if has_name(e, x) {
                    let j = choose|j: int| 0 <= j < e.len() && #[trigger] e[j].name@ == x;
                    if j < d.len() {
                        assert(d[j] == e[j]);
                    }
                }
                if has_name(d, x) {
                    let j = choose|j: int| 0 <= j < d.len() && #[trigger] d[j].name@ == x;
                    assert(e[j] == d[j]);
                }
                if last.name@ == x {
                    assert(e[d.len() as int].name@ == x);
                }
            }
            assert forall|x: Seq<char>| has_name(e, x) <==> #[trigger] has_name(pkgs, x) by {
                assert(has_name(d, x) <==> has_name(p, x));
                assert(has_name(e, x) <==> has_name(d, x) || last.name@ == x);
            }
            assert forall|k: int| 0 <= k < e.len() implies exists|j: int|
                0 <= j < pkgs.len() && #[trigger] e[k] == pkgs[j] by {
                if k < d.len() {
                    let j = choose|j: int| 0 <= j < p.len() && #[trigger] d[k] == p[j];
                    assert(pkgs[j] == p[j]);
                    assert(e[k] == d[k]);
                } else {
                    assert(e[k] == pkgs[pkgs.len() - 1]);
                }
            }
            assert forall|k1: int, k2: int|
                0 <= k1 < k2 < e.len() implies #[trigger] e[k1].name@ != #[trigger] e[k2].name@ by {
                assert(e[k1] == d[k1]);
                if k2 < d.len() {
                    assert(e[k2] == d[k2]);
                } else {
                    if d[k1].name@ == last.name@ {
                        assert(has_name(d, last.name@));
                        assert(has_name(p, last.name@));
                        let j = choose|j: int| 0 <= j < p.len() && #[trigger] p[j].name@ == last.name@;
                        assert(pkgs[j] == p[j]);
                        assert(name_taken_before(pkgs, pkgs.len() - 1));
                    }
                }
            }
        }
    }
}

/// What de-duplication keeps: no two packages share a name, every name of
/// the input is kept, and every package kept comes from the input.
pub proof fn lemma_dedupe_keeps_first_of_each_name(pkgs: Seq<Package>)
    ensures
        forall|k1: int, k2: int|
            0 <= k1 < k2 < dedupe_spec(pkgs).len() ==> #[trigger] dedupe_spec(pkgs)[k1].name@
                != #[trigger] dedupe_spec(pkgs)[k2].name@,
        forall|x: Seq<char>| has_name(dedupe_spec(pkgs), x) <==> #[trigger] has_name(pkgs, x),
        forall|k: int|
            0 <= k < dedupe_spec(pkgs).len() ==> exists|j: int|
                0 <= j < pkgs.len() && #[trigger] dedupe_spec(pkgs)[k] == pkgs[j],
{
    lemma_dedupe_names(pkgs);
}

/// A de-duplicated package list never has a duplicate-name problem.
pub proof fn lemma_dedupe_has_no_duplicates(pkgs: Seq<Package>)
    ensures
        forall|i: int|
            0 <= i < dedupe_spec(pkgs).len() ==> !#[trigger] name_taken_before(
                dedupe_spec(pkgs),
                i,
            ),
{
    lemma_dedupe_names(pkgs);
    let d = dedupe_spec(pkgs);
    assert forall|i: int| 0 <= i < d.len() implies !#[trigger] name_taken_before(d, i) by {
        if name_taken_before(d, i) {
            let j = choose|j: int| 0 <= j < i && #[trigger] d[j].name@ == d[i].name@;
            assert(d[j].name@ != d[i].name@);
        }
    }
}

proof fn lemma_dedupe_keeps_unique(pkgs: Seq<Package>)
    requires
        forall|i: int| 0 <= i < pkgs.len() ==> !#[trigger] name_taken_before(pkgs, i),
    ensures
        dedupe_spec(pkgs) == pkgs,
    decreases pkgs.len(),
{
    if pkgs.len() > 0 {
        let p = pkgs.drop_last();
        assert forall|i: int| 0 <= i < p.len() implies !#[trigger] name_taken_before(p, i) by {
            if name_taken_before(p, i) {
                let j = choose|j: int| 0 <= j < i && #[trigger] p[j].name@ == p[i].name@;
                assert(pkgs[j] == p[j] && pkgs[i] == p[i]);
                assert(name_taken_before(pkgs, i));
            }
        }
        lemma_dedupe_keeps_unique(p);
        assert(!name_taken_before(pkgs, pkgs.len() - 1));
        assert(p.push(pkgs.last()) =~= pkgs);
    }
}

/// De-duplicating twice is de-duplicating once.
pub proof fn lemma_dedupe_idempotent(pkgs: Seq<Package>)
    ensures
        dedupe_spec(dedupe_spec(pkgs)) == dedupe_spec(pkgs),
{
    lemma_dedupe_has_no_duplicates(pkgs);
    lemma_dedupe_keeps_unique(dedupe_spec(pkgs));
}

proof fn lemma_taken_before_last(x: Seq<Package>, e: Package)
    ensures
        name_taken_before(x.push(e), x.len() as int) <==> has_name(x, e.name@),
{
    let y = x.push(e);
    if name_taken_before(y, x.len() as int) {
        let j = choose|j: int| 0 <= j < x.len() && #[trigger] y[j].name@ == y[x.len() as int].name@;
        assert(x[j] == y[j]);
    }
    if has_name(x, e.name@) {
        let j = choose|j: int| 0 <= j < x.len() && #[trigger] x[j].name@ == e.name@;
        assert(y[j] == x[j]);
    }
}

proof fn lemma_has_name_concat(a: Seq<Package>, b: Seq<Package>, n: Seq<char>)
    ensures
        has_name(a + b, n) <==> has_name(a, n) || has_name(b, n),
{
    if has_name(a + b, n) {
        let j = choose|j: int| 0 <= j < (a + b).len() && #[trigger] (a + b)[j].name@ == n;
        if j < a.len() {
            assert(a[j] == (a + b)[j]);
        } else {
            assert(b[j - a.len()] == (a + b)[j]);
        }
    }
    if has_name(a, n) {
        let j = choose|j: int| 0 <= j < a.len() && #[trigger] a[j].name@ == n;
        assert((a + b)[j] == a[j]);
    }
    if has_name(b, n) {
        let j = choose|j: int| 0 <= j < b.len() && #[trigger] b[j].name@ == n;
        assert((a + b)[a.len() + j] == b[j]);
    }
}

/// De-duplicating a part first changes nothing: the first package of each
/// name is the same either way.
pub proof fn lemma_dedupe_prefix_first(a: Seq<Package>, b: Seq<Package>)
    ensures
        dedupe_spec(dedupe_spec(a) + b) == dedupe_spec(a + b),
    decreases b.len(),
{
    if b.len() == 0 {
        assert(dedupe_spec(a) + b =~= dedupe_spec(a));
        assert(a + b =~= a);
        lemma_dedupe_idempotent(a);
    } else {
        let b1 = b.drop_last();
        let e = b.last();
        lemma_dedupe_prefix_first(a, b1);
        let x = dedupe_spec(a) + b1;
        let y = a + b1;
        assert(dedupe_spec(a) + b =~= x.push(e));
        assert(a + b =~= y.push(e));
        assert(x.push(e).drop_last() =~= x);
        assert(y.push(e).drop_last() =~= y);
        lemma_taken_before_last(x, e);
        lemma_taken_before_last(y, e);
        lemma_has_name_concat(dedupe_spec(a), b1, e.name@);
        lemma_has_name_concat(a, b1, e.name@);
        lemma_dedupe_names(a);
    }
}

/// The overriding options win, setting by setting: whatever `over` sets
/// is kept, and `base` only fills in what `over` leaves unset.
pub proof fn lemma_merge_options_override_wins(base: ManifestOptions, over: ManifestOptions)
    ensures
        over.remove_undeclared is Some ==> merge_options_spec(base, over).remove_undeclared
            == over.remove_undeclared,
        over.remove_undeclared is None ==> merge_options_spec(base, over).remove_undeclared
            == base.remove_undeclared,
        over.default_build_options is Some ==> merge_options_spec(base, over).default_build_options
            == over.default_build_options,
        over.default_build_options is None ==> merge_options_spec(base, over).default_build_options
            == base.default_build_options,
{
}

/// `base` with each option that `override_with` sets taken from it.
pub fn merge_options(base: ManifestOptions, override_with: ManifestOptions) -> (r: ManifestOptions)
    ensures
        r == merge_options_spec(base, override_with),
        override_with.remove_undeclared is Some ==> r.remove_undeclared
            == override_with.remove_undeclared,
        override_with.remove_undeclared is None ==> r.remove_undeclared == base.remove_undeclared,
        override_with.default_build_options is Some ==> r.default_build_options
            == override_with.default_build_options,
        override_with.default_build_options is None ==> r.default_build_options
            == base.default_build_options,
{
    ManifestOptions {
        remove_undeclared: match override_with.remove_undeclared {
            Some(b) => Some(b),
            None => base.remove_undeclared,
        },
        default_build_options: match override_with.default_build_options {
            Some(d) => Some(d),
            None => base.default_build_options,
        },
    }
}

/// Merging with an empty set of options, on either side, changes nothing.
pub proof fn lemma_merge_options_identity(o: ManifestOptions)
    ensures
        merge_options_spec(ManifestOptions { remove_undeclared: None, default_build_options: None }, o)
            == o,
        merge_options_spec(o, ManifestOptions { remove_undeclared: None, default_build_options: None })
            == o,
{
}

/// Merging is associative: folding options in one by one gives the same
/// result however the merges are grouped.
pub proof fn lemma_merge_options_associative(a: ManifestOptions, b: ManifestOptions, c: ManifestOptions)
    ensures
        merge_options_spec(merge_options_spec(a, b), c) == merge_options_spec(
            a,
            merge_options_spec(b, c),
        ),
{
}

/// `packages` with every package dropped whose name an earlier package
/// has, the rest in their order.
pub fn dedupe_packages(packages: Vec<Package>) -> (r: Vec<Package>)
    ensures
        r@ == dedupe_spec(packages@),
{
    let ghost all = packages@;
    let mut r: Vec<Package> = Vec::new();
    let ghost mut i: int = 0;
    for p in it: packages.into_iter()
        invariant
            it.seq() == all,
            i == it.index(),
            0 <= i <= all.len(),
            r@ == dedupe_spec(all.take(i)),
    {
        proof {
            lemma_dedupe_names(all.take(i as int));
            assert(all.take(i + 1).drop_last() =~= all.take(i as int));
            assert(p == all[i as int]);
        }
        let mut seen = false;
        let mut k: usize = 0;
        while k < r.len()
            invariant
                0 <= k <= r@.len(),
                seen <==> exists|j: int| 0 <= j < k && #[trigger] r@[j].name@ == p.name@,
            decreases r@.len() - k,
        {
            if r[k].name == p.name {
                seen = true;
            }
            k = k + 1;
        }
        proof {
            let t = all.take(i + 1);
            assert(t[i as int] == p);
            assert(seen == has_name(r@, p.name@));
            assert(has_name(all.take(i as int), p.name@) == name_taken_before(t, i as int)) by {
                if has_name(all.take(i as int), p.name@) {
                    let j = choose|j: int| 0 <= j < i && #[trigger] all.take(i as int)[j].name@ == p.name@;
                    assert(t[j] == all.take(i as int)[j]);
                }
                if name_taken_before(t, i as int) {
                    let j = choose|j: int| 0 <= j < i && #[trigger] t[j].name@ == t[i as int].name@;
                    assert(t[j] == all.take(i as int)[j]);
                }
            }
        }
        if !seen {
            r.push(p);
        }
        proof {
            i = i + 1;
        }
    }
    assert(all.take(all.len() as int) =~= all);
    r
}

/// The language families that default build options exist for.
pub enum LanguageFamily {
    Rust,
    C,
    Other,
}

/// The family a language name belongs to, ignoring ASCII case: `rust`, or
/// `c` and `c++`.
pub open spec fn language_family(language: Seq<char>) -> LanguageFamily {
    let l = ascii_lower(language);
    if l == "rust"@ {
        LanguageFamily::Rust
    } else if l == "c"@ || l == "c++"@ {
        LanguageFamily::C
    } else {
        LanguageFamily::Other
    }
}

fn family_of(language: &str) -> (r: LanguageFamily)
    ensures
        r == language_family(language@),
{
    let l = ascii_lower_chars(language);
    if range_equals(&l, 0, l.len(), &chars_of("rust")) {
        assert(l@.subrange(0, l@.len() as int) =~= l@);
        LanguageFamily::Rust
    } else if range_equals(&l, 0, l.len(), &chars_of("c")) || range_equals(
        &l,
        0,
        l.len(),
        &chars_of("c++"),
    ) {
        assert(l@.subrange(0, l@.len() as int) =~= l@);
        LanguageFamily::C
    } else {
        assert(l@.subrange(0, l@.len() as int) =~= l@);
        LanguageFamily::Other
    }
}

/// The build settings a package ends up with: its own settings as they are
/// when they ignore the defaults; otherwise its language, and its toolchain
/// and flags where it gives them, the defaults of its language family
/// where it does not.
pub open spec fn resolved_build_options(
    explicit: Option<BuildOptions>,
    defaults: Option<DefaultBuildOptions>,
) -> BuildOptionsView {
    let e = match explicit {
        Some(b) => b@,
        None => empty_build_options(),
    };
    if e.ignore_default {
        e
    } else {
        let (toolchain, flags) = match (defaults, e.language) {
            (Some(d), Some(language)) => match language_family(language@) {
                LanguageFamily::Rust => (d.toolchain_rust, strings_view(d.build_flags_rust)),
                LanguageFamily::C => (d.toolchain_c, strings_view(d.build_flags_c)),
                LanguageFamily::Other => (None, None),
            },
            _ => (None, None),
        };
        BuildOptionsView {
            ignore_default: false,
            language: e.language,
            toolchain: or_else(e.toolchain, toolchain),
            build_flags: or_else(e.build_flags, flags),
        }
    }
}

/// A package's own settings are never overridden: with `ignore_default`
/// they are kept as they are; otherwise its language is kept, and so are
/// its toolchain and its flags where it gives them.
pub proof fn lemma_explicit_build_options_kept(b: BuildOptions, defaults: Option<DefaultBuildOptions>)
    ensures
        b.ignore_default ==> resolved_build_options(Some(b), defaults) == b@,
        !b.ignore_default ==> resolved_build_options(Some(b), defaults).language == b.language,
        !b.ignore_default && b.toolchain is Some ==> resolved_build_options(Some(b), defaults).toolchain
            == b.toolchain,
        !b.ignore_default && b.build_flags is Some ==> resolved_build_options(
            Some(b),
            defaults,
        ).build_flags == strings_view(b.build_flags),
{
}

proof fn lemma_first_problem_is_some_problem(pkgs: Seq<Package>, n: int)
    requires
        0 <= n <= pkgs.len(),
        first_problem_upto(pkgs, n) is Some,
    ensures
        exists|i: int| 0 <= i < n && #[trigger] package_problem(pkgs, i) == first_problem_upto(pkgs, n),
    decreases n,
{
    if first_problem_upto(pkgs, n - 1) is Some {
        lemma_first_problem_is_some_problem(pkgs, n - 1);
        let i = choose|i: int| 0 <= i < n - 1 && #[trigger] package_problem(pkgs, i) == first_problem_upto(pkgs, n - 1);
        assert(package_problem(pkgs, i) == first_problem_upto(pkgs, n));
    } else {
        assert(package_problem(pkgs, n - 1) == first_problem_upto(pkgs, n));
    }
}

/// A package list in which no name repeats, such as every resolved
/// manifest the loader gives, is never refused for a duplicate name.
pub proof fn lemma_unique_names_pass_duplicate_check(pkgs: Seq<Package>)
    requires
        forall|i: int| 0 <= i < pkgs.len() ==> !#[trigger] name_taken_before(pkgs, i),
    ensures
        !(first_problem(pkgs) matches Some(ManifestError::DuplicateName(_))),
{
    if first_problem(pkgs) is Some {
        lemma_first_problem_is_some_problem(pkgs, pkgs.len() as int);
        let i = choose|i: int| 0 <= i < pkgs.len() && #[trigger] package_problem(pkgs, i) == first_problem(pkgs);
        assert(!name_taken_before(pkgs, i));
    }
}

/// The defaults a package gets by the ASCII lower case of its language:
/// `rust` takes the Rust toolchain and flags, `c` and `c++` the C ones,
/// any other language none; a toolchain or flags the package gives itself
/// stay.
pub proof fn lemma_defaults_by_language(b: BuildOptions, d: DefaultBuildOptions)
    requires
        !b.ignore_default,
        b.language is Some,
    ensures
        ascii_lower(b.language->0@) == "rust"@ ==> {
            &&& resolved_build_options(Some(b), Some(d)).toolchain == match b.toolchain {
                Some(_) => b.toolchain,
                None => d.toolchain_rust,
            }
            &&& resolved_build_options(Some(b), Some(d)).build_flags == match b.build_flags {
                Some(f) => Some(f@),
                None => match d.build_flags_rust {
                    Some(f) => Some(f@),
                    None => None,
                },
            }
        },
        ascii_lower(b.language->0@) == "c"@ || ascii_lower(b.language->0@) == "c++"@ ==> {
            &&& resolved_build_options(Some(b), Some(d)).toolchain == match b.toolchain {
                Some(_) => b.toolchain,
                None => d.toolchain_c,
            }
            &&& resolved_build_options(Some(b), Some(d)).build_flags == match b.build_flags {
                Some(f) => Some(f@),
                None => match d.build_flags_c {
                    Some(f) => Some(f@),
                    None => None,
                },
            }
        },
        ascii_lower(b.language->0@) != "rust"@ && ascii_lower(b.language->0@) != "c"@
            && ascii_lower(b.language->0@) != "c++"@ ==> {
            &&& resolved_build_options(Some(b), Some(d)).toolchain == b.toolchain
            &&& resolved_build_options(Some(b), Some(d)).build_flags == b@.build_flags
        },
        resolved_build_options(Some(b), None).toolchain == b.toolchain,
        resolved_build_options(Some(b), None).build_flags == b@.build_flags,
        resolved_build_options(Some(b), Some(d)).language == b.language,
{
    reveal_strlit("rust");
    reveal_strlit("c");
    reveal_strlit("c++");
    assert("rust"@.len() == 4 && "c"@.len() == 1 && "c++"@.len() == 3);
}

impl ResolvedManifest {
    /// Checks the packages in order and reports the first problem found:
    /// a blank name, a name used twice, or a `git` package without url.
    pub fn validate(&self) -> (r: Result<(), ManifestError>)
        ensures
            r matches Ok(_) <==> first_problem(self.packages@) is None,
            r matches Err(e) ==> first_problem(self.packages@) == Some(e),
            r matches Ok(_) <==> packages_valid(self.packages@),
    {
        proof {
            lemma_valid_iff_no_problem(self.packages@);
        }
        let ghost pkgs = self.packages@;
        let mut i: usize = 0;
        while i < self.packages.len()
            invariant
                pkgs == self.packages@,
                0 <= i <= pkgs.len(),
                first_problem_upto(pkgs, i as int) is None,
            decreases pkgs.len() - i,
        {
            let package = &self.packages[i];
            proof {
                if package_problem(pkgs, i as int) is Some {
                    lemma_first_problem_stable(pkgs, i + 1, pkgs.len() as int);
                }
            }
            if is_blank_str(package.name.as_str()) {
                return Err(ManifestError::EmptyName);
            }
            let mut j: usize = 0;
            while j < i
                invariant
                    pkgs == self.packages@,
                    0 <= j <= i < pkgs.len(),
                    *package == pkgs[i as int],
                    first_problem_upto(pkgs, i as int) is None,
                    !is_blank(pkgs[i as int].name@),
                    forall|k: int| 0 <= k < j ==> #[trigger] pkgs[k].name@ != pkgs[i as int].name@,
                decreases i - j,
            {
                if self.packages[j].name == package.name {
                    proof {
                        assert(name_taken_before(pkgs, i as int));
                        lemma_first_problem_stable(pkgs, i + 1, pkgs.len() as int);
                        lemma_valid_iff_no_problem(pkgs);
                    }
                    return Err(ManifestError::DuplicateName(package.name.clone()));
                }
                j = j + 1;
            }
            let is_git = match package.source {
                PackageSource::Git => true,
                _ => false,
            };
            if is_git && package.url.is_none() {
                return Err(ManifestError::GitWithoutUrl);
            }
            assert(package_problem(pkgs, i as int) is None);
            i = i + 1;
        }
        Ok(())
    }
}

impl Package {
    /// The build settings of this package, with the manifest's defaults
    /// for its language family filled in where the package leaves a
    /// setting open and does not ignore the defaults.
    pub fn resolve_build_options(&self, defaults: Option<&DefaultBuildOptions>) -> (r: BuildOptions)
        ensures
            r@ == resolved_build_options(
                self.build_options,
                match defaults {
                    Some(d) => Some(*d),
                    None => None,
                },
            ),
    {
        let explicit = match &self.build_options {
            Some(b) => b.clone(),
            None => BuildOptions::default(),
        };
        if explicit.ignore_default {
            return explicit;
        }
        let mut merged = BuildOptions {
            ignore_default: false,
            language: explicit.language.clone(),
            toolchain: explicit.toolchain.clone(),
            build_flags: clone_strings(&explicit.build_flags),
        };
        match (defaults, &explicit.language) {
            (Some(d), Some(language)) => {
                match family_of(language.as_str()) {
                    LanguageFamily::Rust => {
                        if merged.toolchain.is_none() {
                            merged.toolchain = d.toolchain_rust.clone();
                        }
                        if merged.build_flags.is_none() {
                            merged.build_flags = clone_strings(&d.build_flags_rust);
                        }
                    },
                    LanguageFamily::C => {
                        if merged.toolchain.is_none() {
                            merged.toolchain = d.toolchain_c.clone();
                        }
                        if merged.build_flags.is_none() {
                            merged.build_flags = clone_strings(&d.build_flags_c);
                        }
                    },
                    LanguageFamily::Other => {},
                }
            },
            _ => {},
        }
        merged
    }
}

} // verus!
