//! What resolving includes means, stated as a recursion over the files,
//! and the proof that the step-by-step `ManifestLoader`, driven by a
//! caller that reads the files it asks for, gives exactly that.
//!
//! The files are modelled as a map from the path the loader asks for to
//! the canonical path and the manifest read there; a path missing from the
//! map is one that cannot be canonicalized or read.  Both sides count the
//! files they read against the same budget, so the two agree on every
//! budget, also where it runs out.
use vstd::prelude::*;
use crate::loader::{
    absorb, advance, finish_frame, frames_wf, include_target, manifest_dir, open_frame, FrameView,
    StepView,
};
use crate::manifest::{
    dedupe_spec, lemma_dedupe_prefix_first, merge_options_spec, Manifest, ManifestOptions, Package,
};

verus! {

/// How resolving a manifest ends.
pub enum Resolution {
    /// The packages and options, the files read, and the budget left.
    Resolved(Seq<Package>, ManifestOptions, Seq<Seq<char>>, nat),
    /// This file was reached a second time.
    Circular(Seq<char>),
    /// This path could not be canonicalized or read.
    Unreadable(Seq<char>),
    /// The budget of files to read ran out.
    Exhausted,
}

/// The files: what reading each requested path gives, as its canonical
/// path and its manifest.
pub type Files = Map<Seq<char>, (Seq<char>, Manifest)>;

/// Options that set nothing.
pub open spec fn no_options() -> ManifestOptions {
    ManifestOptions { remove_undeclared: None, default_build_options: None }
}

/// The smaller of two budgets.
pub open spec fn min_nat(a: nat, b: nat) -> nat {
    if a < b {
        a
    } else {
        b
    }
}

/// Resolving the manifest `m` read at canonical path `path`, with the
/// files in `visited` read already: refused if `path` is among them;
/// otherwise its includes are resolved in order, their packages and then
/// its own are de-duplicated (first one kept), and its own options
/// override theirs.
pub open spec fn resolve_manifest(
    files: Files,
    path: Seq<char>,
    m: Manifest,
    visited: Seq<Seq<char>>,
    fuel: nat,
) -> Resolution
    decreases fuel, 0nat, 0nat,
{
    if fuel == 0 {
        Resolution::Exhausted
    } else if visited.contains(path) {
        Resolution::Circular(path)
    } else {
        let f = open_frame(path, m);
        match resolve_includes(
            files,
            f.dir,
            f.includes,
            f.packages,
            f.options,
            visited.push(path),
            (fuel - 1) as nat,
        ) {
            Resolution::Resolved(p, o, v, left) => {
                let r = finish_frame(FrameView { packages: p, options: o, ..f });
                Resolution::Resolved(r.0, r.1, v, left)
            },
            e => e,
        }
    }
}

/// Resolving the includes `incs` of a manifest in directory `dir`, one
/// after the other, adding their packages to `acc_p` and merging their
/// options into `acc_o`.
pub open spec fn resolve_includes(
    files: Files,
    dir: Seq<char>,
    incs: Seq<String>,
    acc_p: Seq<Package>,
    acc_o: ManifestOptions,
    visited: Seq<Seq<char>>,
    fuel: nat,
) -> Resolution
    decreases fuel, 1nat, incs.len(),
{
    if incs.len() == 0 {
        Resolution::Resolved(acc_p, acc_o, visited, fuel)
    } else {
        let req = include_target(dir, incs[0]@);
        if !files.dom().contains(req) {
            Resolution::Unreadable(req)
        } else {
            match resolve_manifest(files, files[req].0, files[req].1, visited, fuel) {
                Resolution::Resolved(p, o, v, left) => resolve_includes(
                    files,
                    dir,
                    incs.drop_first(),
                    acc_p + p,
                    merge_options_spec(acc_o, o),
                    v,
                    min_nat(left, fuel),
                ),
                e => e,
            }
        }
    }
}

/// The caller's loop around the loader: for each path asked for, read it
/// (or fail), hand the manifest to the loader (`on_loaded` with the
/// canonical path), and go on with what it answers.
pub open spec fn drive(
    files: Files,
    visited: Seq<Seq<char>>,
    frames: Seq<FrameView>,
    step: StepView,
    fuel: nat,
) -> Resolution
    decreases fuel,
{
    match step {
        StepView::Done(p, o) => Resolution::Resolved(p, o, visited, fuel),
        StepView::Read(req) => if !files.dom().contains(req) {
            Resolution::Unreadable(req)
        } else {
            let c = files[req].0;
            let m = files[req].1;
            if fuel == 0 {
                Resolution::Exhausted
            } else if visited.contains(c) {
                Resolution::Circular(c)
            } else {
                let next = advance(frames.push(open_frame(c, m)));
                drive(files, visited.push(c), next.0, next.1, (fuel - 1) as nat)
            }
        },
    }
}

/// A fresh loader handed the root manifest `m` read at `path`, then driven
/// by the caller.
pub open spec fn run_loader(files: Files, path: Seq<char>, m: Manifest, fuel: nat) -> Resolution {
    if fuel == 0 {
        Resolution::Exhausted
    } else {
        let next = advance(Seq::<FrameView>::empty().push(open_frame(path, m)));
        drive(files, Seq::<Seq<char>>::empty().push(path), next.0, next.1, (fuel - 1) as nat)
    }
}

/// What is left to do for a stack of frames: the innermost frame resolves
/// its remaining includes and closes, is merged into the frame below, and
/// so on outwards.
spec fn unwind(files: Files, stack: Seq<FrameView>, visited: Seq<Seq<char>>, fuel: nat) -> Resolution
    decreases stack.len(),
{
    if stack.len() == 0 {
        Resolution::Exhausted
    } else {
        let t = stack.last();
        match resolve_includes(
            files,
            t.dir,
            t.includes.skip(t.next),
            t.packages,
            t.options,
            visited,
            fuel,
        ) {
            Resolution::Resolved(p, o, v, left) => {
                let r = finish_frame(FrameView { packages: p, options: o, ..t });
                if stack.len() == 1 {
                    Resolution::Resolved(r.0, r.1, v, left)
                } else {
                    let below = stack.drop_last();
                    unwind(files, below.update(below.len() - 1, absorb(below.last(), r)), v, left)
                }
            },
            e => e,
        }
    }
}

proof fn lemma_manifest_fuel(files: Files, path: Seq<char>, m: Manifest, visited: Seq<Seq<char>>, fuel: nat)
    ensures
        resolve_manifest(files, path, m, visited, fuel) matches Resolution::Resolved(_, _, _, left)
            ==> left < fuel,
    decreases fuel, 0nat, 0nat,
{
    if fuel > 0 && !visited.contains(path) {
        let f = open_frame(path, m);
        lemma_includes_fuel(files, f.dir, f.includes, f.packages, f.options, visited.push(path), (fuel - 1) as nat);
    }
}

proof fn lemma_includes_fuel(
    files: Files,
    dir: Seq<char>,
    incs: Seq<String>,
    acc_p: Seq<Package>,
    acc_o: ManifestOptions,
    visited: Seq<Seq<char>>,
    fuel: nat,
)
    ensures
        resolve_includes(files, dir, incs, acc_p, acc_o, visited, fuel) matches Resolution::Resolved(
            _,
            _,
            _,
            left,
        ) ==> left <= fuel,
    decreases fuel, 1nat, incs.len(),
{
    if incs.len() > 0 {
        let req = include_target(dir, incs[0]@);
        if files.dom().contains(req) {
            lemma_manifest_fuel(files, files[req].0, files[req].1, visited, fuel);
            match resolve_manifest(files, files[req].0, files[req].1, visited, fuel) {
                Resolution::Resolved(p, o, v, left) => {
                    lemma_includes_fuel(
                        files,
                        dir,
                        incs.drop_first(),
                        acc_p + p,
                        merge_options_spec(acc_o, o),
                        v,
                        min_nat(left, fuel),
                    );
                },
                _ => {},
            }
        }
    }
}

proof fn lemma_drive_unwind(files: Files, stack: Seq<FrameView>, visited: Seq<Seq<char>>, fuel: nat)
    requires
        stack.len() > 0,
        frames_wf(stack),
    ensures
        drive(files, visited, advance(stack).0, advance(stack).1, fuel) == unwind(
            files,
            stack,
            visited,
            fuel,
        ),
    decreases fuel, stack.len(),
{
    let t = stack.last();
    assert(stack[stack.len() - 1] == t);
    if t.next < t.includes.len() {
        let incs = t.includes.skip(t.next);
        assert(incs[0] == t.includes[t.next]);
        let req = include_target(t.dir, incs[0]@);
        let s1 = stack.update(stack.len() - 1, FrameView { next: t.next + 1, ..t });
        assert(advance(stack) == (s1, StepView::Read(req)));
        if files.dom().contains(req) && fuel > 0 && !visited.contains(files[req].0) {
            let c = files[req].0;
            let m = files[req].1;
            let n = open_frame(c, m);
            let big = s1.push(n);
            assert(frames_wf(big)) by {
                assert forall|k: int| 0 <= k < big.len() implies 0 <= #[trigger] big[k].next
                    <= big[k].includes.len() by {
                    if k < stack.len() - 1 {
                        assert(big[k] == stack[k]);
                    }
                }
            }
            lemma_drive_unwind(files, big, visited.push(c), (fuel - 1) as nat);
            assert(n.includes.skip(0) =~= n.includes);
            assert(FrameView { packages: n.packages, options: n.options, ..n } == n);
            let inner = resolve_includes(
                files,
                n.dir,
                n.includes,
                n.packages,
                n.options,
                visited.push(c),
                (fuel - 1) as nat,
            );
            assert(big.last() == n);
            assert(big.drop_last() =~= s1);
            match inner {
                Resolution::Resolved(p0, o0, v0, l0) => {
                    lemma_includes_fuel(
                        files,
                        n.dir,
                        n.includes,
                        n.packages,
                        n.options,
                        visited.push(c),
                        (fuel - 1) as nat,
                    );
                    let r = finish_frame(FrameView { packages: p0, options: o0, ..n });
                    assert(resolve_manifest(files, c, m, visited, fuel) == Resolution::Resolved(
                        r.0,
                        r.1,
                        v0,
                        l0,
                    ));
                    let t1 = absorb(s1.last(), r);
                    let s2 = s1.update(s1.len() - 1, t1);
                    assert(s1.last() == FrameView { next: t.next + 1, ..t });
                    assert(t1.includes.skip(t1.next) =~= incs.drop_first());
                    assert(unwind(files, big, visited.push(c), (fuel - 1) as nat) == unwind(
                        files,
                        s2,
                        v0,
                        l0,
                    ));
                    assert(min_nat(l0, fuel) == l0);
                    let rest = resolve_includes(
                        files,
                        t.dir,
                        incs.drop_first(),
                        t.packages + r.0,
                        merge_options_spec(t.options, r.1),
                        v0,
                        l0,
                    );
                    assert(resolve_includes(files, t.dir, incs, t.packages, t.options, visited, fuel)
                        == rest);
                    assert(s2.last() == t1);
                    assert(s2.drop_last() =~= stack.drop_last());
                    match rest {
                        Resolution::Resolved(p, o, v, left) => {
                            assert(FrameView { packages: p, options: o, ..t1 } == FrameView {
                                packages: p,
                                options: o,
                                next: t1.next,
                                ..t
                            });
                            assert(finish_frame(FrameView { packages: p, options: o, ..t1 })
                                == finish_frame(FrameView { packages: p, options: o, ..t }));
                        },
                        _ => {},
                    }
                },
                _ => {
                    assert(unwind(files, big, visited.push(c), (fuel - 1) as nat) == inner);
                },
            }
        }
    } else {
        assert(t.includes.skip(t.next) =~= Seq::<String>::empty());
        assert(FrameView { packages: t.packages, options: t.options, ..t } == t);
        if stack.len() > 1 {
            let below = stack.drop_last();
            let s2 = below.update(below.len() - 1, absorb(below.last(), finish_frame(t)));
            assert(frames_wf(s2)) by {
                assert forall|k: int| 0 <= k < s2.len() implies 0 <= #[trigger] s2[k].next
                    <= s2[k].includes.len() by {
                    assert(below[k] == stack[k]);
                }
            }
            lemma_drive_unwind(files, s2, visited, fuel);
        }
    }
}

/// The options a manifest sets itself, none where it has no `options`.
pub open spec fn own_options(m: Manifest) -> ManifestOptions {
    match m.options {
        Some(o) => o,
        None => no_options(),
    }
}

/// A manifest that includes one manifest, itself without includes,
/// resolves to the included packages before its own, the first package of
/// each name kept, and to the included options with each setting of its
/// own overriding them.
pub proof fn lemma_one_include_resolution(files: Files, path: Seq<char>, m: Manifest, fuel: nat)
    requires
        fuel >= 2,
        m.includes matches Some(v) && v@.len() == 1,
        files.dom().contains(include_target(manifest_dir(path), m.includes->0@[0]@)),
        files[include_target(manifest_dir(path), m.includes->0@[0]@)].0 != path,
        files[include_target(manifest_dir(path), m.includes->0@[0]@)].1.includes is None,
    ensures
        ({
            let inner = files[include_target(manifest_dir(path), m.includes->0@[0]@)].1;
            let r = resolve_manifest(files, path, m, Seq::<Seq<char>>::empty(), fuel);
            &&& r matches Resolution::Resolved(p, o, _, _) && p == dedupe_spec(
                inner.packages@ + m.packages@,
            ) && o.remove_undeclared == match own_options(m).remove_undeclared {
                Some(x) => Some(x),
                None => own_options(inner).remove_undeclared,
            } && o.default_build_options == match own_options(m).default_build_options {
                Some(d) => Some(d),
                None => own_options(inner).default_build_options,
            }
        }),
{
    let f = open_frame(path, m);
    let req = include_target(manifest_dir(path), m.includes->0@[0]@);
    let c = files[req].0;
    let inner = files[req].1;
    let visited = Seq::<Seq<char>>::empty().push(path);
    let f2 = open_frame(c, inner);
    assert(f.includes == m.includes->0@);
    assert(f2.includes =~= Seq::<String>::empty());
    assert(!Seq::<Seq<char>>::empty().contains(path));
    assert(!visited.contains(c)) by {
        if visited.contains(c) {
            let j = choose|j: int| 0 <= j < visited.len() && visited[j] == c;
            assert(visited[j] == path);
        }
    }
    let after = resolve_includes(files, f2.dir, f2.includes, f2.packages, f2.options, visited.push(c), (fuel - 2) as nat);
    assert(after == Resolution::Resolved(f2.packages, f2.options, visited.push(c), (fuel - 2) as nat));
    let r2 = finish_frame(FrameView { packages: f2.packages, options: f2.options, ..f2 });
    assert(resolve_manifest(files, c, inner, visited, (fuel - 1) as nat) == Resolution::Resolved(
        r2.0,
        r2.1,
        visited.push(c),
        (fuel - 2) as nat,
    ));
    assert(f.includes.drop_first() =~= Seq::<String>::empty());
    assert(f2.packages + inner.packages@ =~= inner.packages@);
    assert(f.packages + r2.0 =~= r2.0);
    assert(f.dir == manifest_dir(path));
    assert(include_target(f.dir, f.includes[0]@) == req);
    assert(min_nat((fuel - 2) as nat, (fuel - 1) as nat) == (fuel - 2) as nat);
    let acc_p = f.packages + r2.0;
    let acc_o = merge_options_spec(f.options, r2.1);
    assert(resolve_includes(files, f.dir, f.includes.drop_first(), acc_p, acc_o, visited.push(c), (fuel - 2) as nat)
        == Resolution::Resolved(acc_p, acc_o, visited.push(c), (fuel - 2) as nat));
    let outer = resolve_includes(files, f.dir, f.includes, f.packages, f.options, visited, (fuel - 1) as nat);
    assert(outer == Resolution::Resolved(acc_p, acc_o, visited.push(c), (fuel - 2) as nat));
    let r1 = finish_frame(FrameView { packages: acc_p, options: acc_o, ..f });
    assert(resolve_manifest(files, path, m, Seq::<Seq<char>>::empty(), fuel) == Resolution::Resolved(
        r1.0,
        r1.1,
        visited.push(c),
        (fuel - 2) as nat,
    ));
    assert(r2.0 == dedupe_spec(inner.packages@));
    assert(acc_p == dedupe_spec(inner.packages@));
    lemma_dedupe_prefix_first(inner.packages@, m.packages@);
    assert(r1.0 == dedupe_spec(inner.packages@ + m.packages@));
    assert(f.own_options == own_options(m));
    assert(f2.own_options == own_options(inner));
}

/// Driving the loader over the files gives exactly the recursive
/// resolution of the root manifest: the same packages in the same order,
/// the same options, the same files read, the same refusal of a circular
/// include or of an unreadable path, for every budget of files.
pub proof fn lemma_loader_resolves_includes(files: Files, path: Seq<char>, m: Manifest, fuel: nat)
    ensures
        run_loader(files, path, m, fuel) == resolve_manifest(
            files,
            path,
            m,
            Seq::<Seq<char>>::empty(),
            fuel,
        ),
{
    if fuel > 0 {
        let n = open_frame(path, m);
        let s = Seq::<FrameView>::empty().push(n);
        assert(s.last() == n);
        assert(frames_wf(s)) by {
            assert forall|k: int| 0 <= k < s.len() implies 0 <= #[trigger] s[k].next
                <= s[k].includes.len() by {
                assert(s[k] == n);
            }
        }
        lemma_drive_unwind(files, s, Seq::<Seq<char>>::empty().push(path), (fuel - 1) as nat);
        assert(n.includes.skip(0) =~= n.includes);
        assert(FrameView { packages: n.packages, options: n.options, ..n } == n);
        assert(Seq::<Seq<char>>::empty().push(path) =~= Seq::<Seq<char>>::empty().push(path));
    }
}

} // verus!
