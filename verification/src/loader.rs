//! Resolution of manifest includes.
//!
//! Reading a manifest file is the caller's work; the decisions are made
//! here, one loaded file at a time.  The caller starts with
//! `ManifestLoader::new()`, reads the root manifest (at its canonical path)
//! and hands it to `on_loaded`.  Each answer is either a path to read next
//! (`LoadStep::Read`, to be canonicalized and read, then handed to
//! `on_loaded` in turn) or the finished `ResolvedManifest`.
//!
//! A manifest's includes are resolved depth first, in the order written.
//! The packages of the includes come first, then the manifest's own; among
//! packages of the same name the first one is kept.  Options merge in the
//! same order, a later setting overriding an earlier one.  A file reached a
//! second time is refused as a circular include.
use vstd::prelude::*;
use crate::manifest::{
    dedupe_packages, dedupe_spec, lemma_dedupe_has_no_duplicates, merge_options,
    merge_options_spec, name_taken_before, Manifest, ManifestError, ManifestOptions, Package,
    ResolvedManifest,
};

verus! {

/// The parent directory of a path, as `std::path::Path::parent` gives it.
pub uninterp spec fn path_parent(path: Seq<char>) -> Option<Seq<char>>;

/// A path joined onto a base path, as `std::path::Path::join` gives it.
pub uninterp spec fn path_join(base: Seq<char>, rel: Seq<char>) -> Seq<char>;

/// `std::path::Path::parent`, with the parent given as text.  The parent
/// of a path given as UTF-8 text is a prefix of it, so the conversion loses
/// nothing.
#[verifier::external_body]
fn parent_of(path: &str) -> (r: Option<String>)
    ensures
        r matches Some(p) ==> path_parent(path@) == Some(p@),
        r is None ==> path_parent(path@) is None,
{
    match std::path::Path::new(path).parent() {
        Some(p) => Some(p.to_string_lossy().into_owned()),
        None => None,
    }
}

/// `std::path::Path::join`, with the joined path given as text.  Joining two
/// UTF-8 texts gives UTF-8 text, so the conversion loses nothing.  As its
/// documentation describes (`Path::new("/etc").join("passwd")` is
/// `/etc/passwd`), a relative path is added after a `/` separator; the
/// contract states this where the base is not empty and does not end in
/// `/` already, and leaves the join unstated otherwise.
#[verifier::external_body]
fn join_path(base: &str, rel: &str) -> (r: String)
    ensures
        r@ == path_join(base@, rel@),
        !is_absolute(rel@) && rel@.len() > 0 && base@.len() > 0 && base@.last() != '/' ==> r@
            == base@ + seq!['/'] + rel@,
{
    std::path::Path::new(base).join(rel).to_string_lossy().into_owned()
}

/// A path is absolute when it starts at the root directory.
pub open spec fn is_absolute(path: Seq<char>) -> bool {
    path.len() > 0 && path[0] == '/'
}

/// The directory that a manifest's relative includes are taken from.
pub open spec fn manifest_dir(path: Seq<char>) -> Seq<char> {
    match path_parent(path) {
        Some(p) => p,
        None => "."@,
    }
}

/// The path an include names, for a manifest in directory `dir`: an
/// absolute include as it is; a relative one after `dir` and a `/`.
pub open spec fn include_target(dir: Seq<char>, inc: Seq<char>) -> Seq<char> {
    if is_absolute(inc) {
        inc
    } else if inc.len() > 0 && dir.len() > 0 && dir.last() != '/' {
        dir + seq!['/'] + inc
    } else {
        path_join(dir, inc)
    }
}

/// One manifest being resolved: its directory, its includes and how many
/// of them were asked for, what the resolved includes gave so far, and its
/// own packages and options.
pub struct Frame {
    dir: String,
    includes: Vec<String>,
    next: usize,
    packages: Vec<Package>,
    options: ManifestOptions,
    own_packages: Vec<Package>,
    own_options: ManifestOptions,
}

/// A frame as plain values.
pub struct FrameView {
    pub dir: Seq<char>,
    pub includes: Seq<String>,
    pub next: int,
    pub packages: Seq<Package>,
    pub options: ManifestOptions,
    pub own_packages: Seq<Package>,
    pub own_options: ManifestOptions,
}

impl View for Frame {
    type V = FrameView;

    closed spec fn view(&self) -> FrameView {
        FrameView {
            dir: self.dir@,
            includes: self.includes@,
            next: self.next as int,
            packages: self.packages@,
            options: self.options,
            own_packages: self.own_packages@,
            own_options: self.own_options,
        }
    }
}

/// What the caller is to do next.
pub enum LoadStep {
    /// Read the manifest at this path (canonicalized) and hand it back.
    Read(String),
    /// All includes are resolved.
    Done(ResolvedManifest),
}

/// A step as plain values.
pub enum StepView {
    Read(Seq<char>),
    Done(Seq<Package>, ManifestOptions),
}

/// The step as plain values.
pub open spec fn step_view(s: LoadStep) -> StepView {
    match s {
        LoadStep::Read(p) => StepView::Read(p@),
        LoadStep::Done(r) => StepView::Done(r.packages@, r.options),
    }
}

/// The packages and options a frame resolves to once its includes are in:
/// the includes' packages then its own, de-duplicated; the includes'
/// options overridden by its own.
pub open spec fn finish_frame(f: FrameView) -> (Seq<Package>, ManifestOptions) {
    (dedupe_spec(f.packages + f.own_packages), merge_options_spec(f.options, f.own_options))
}

/// A frame with a resolved include merged in.
pub open spec fn absorb(f: FrameView, r: (Seq<Package>, ManifestOptions)) -> FrameView {
    FrameView { packages: f.packages + r.0, options: merge_options_spec(f.options, r.1), ..f }
}

/// The frame that a freshly loaded manifest opens.
pub open spec fn open_frame(path: Seq<char>, m: Manifest) -> FrameView {
    FrameView {
        dir: manifest_dir(path),
        includes: match m.includes {
            Some(v) => v@,
            None => Seq::<String>::empty(),
        },
        next: 0,
        packages: Seq::<Package>::empty(),
        options: ManifestOptions { remove_undeclared: None, default_build_options: None },
        own_packages: m.packages@,
        own_options: match m.options {
            Some(o) => o,
            None => ManifestOptions { remove_undeclared: None, default_build_options: None },
        },
    }
}

/// Frames whose include counters are in range.
pub open spec fn frames_wf(stack: Seq<FrameView>) -> bool {
    forall|k: int| 0 <= k < stack.len() ==> 0 <= #[trigger] stack[k].next <= stack[k].includes.len()
}

/// From a stack of frames, the next thing to do: ask for the next include
/// of the innermost frame; or, where it has none left, close it and merge
/// it into the frame below, until one asks for an include or the last
/// frame is closed.
pub open spec fn advance(stack: Seq<FrameView>) -> (Seq<FrameView>, StepView)
    decreases stack.len(),
{
    if stack.len() == 0 {
        (stack, StepView::Done(Seq::<Package>::empty(), ManifestOptions { remove_undeclared: None, default_build_options: None }))
    } else {
        let top = stack.last();
        if top.next < top.includes.len() {
            (
                stack.update(stack.len() - 1, FrameView { next: top.next + 1, ..top }),
                StepView::Read(include_target(top.dir, top.includes[top.next]@)),
            )
        } else {
            let r = finish_frame(top);
            if stack.len() == 1 {
                (Seq::<FrameView>::empty(), StepView::Done(r.0, r.1))
            } else {
                let below = stack.drop_last();
                advance(below.update(below.len() - 1, absorb(below.last(), r)))
            }
        }
    }
}

/// Resolves a manifest's includes, one loaded file at a time.
pub struct ManifestLoader {
    visited: Vec<String>,
    stack: Vec<Frame>,
}

impl ManifestLoader {
    /// The paths of the manifests loaded so far.
    pub closed spec fn visited(&self) -> Seq<Seq<char>> {
        self.visited@.map_values(|p: String| p@)
    }

    /// The manifests being resolved, outermost first.
    pub closed spec fn frames(&self) -> Seq<FrameView> {
        self.stack@.map_values(|f: Frame| f@)
    }

    /// A loader that has loaded nothing yet.
    pub fn new() -> (r: ManifestLoader)
        ensures
            r.visited() == Seq::<Seq<char>>::empty(),
            r.frames() == Seq::<FrameView>::empty(),
    {
        let r = ManifestLoader { visited: Vec::new(), stack: Vec::new() };
        assert(r.visited() =~= Seq::<Seq<char>>::empty());
        assert(r.frames() =~= Seq::<FrameView>::empty());
        r
    }

    /// Checks the canonical path of the next manifest before it is read: a
    /// manifest loaded before is refused as a circular include.
    pub fn check_path(&self, path: &String) -> (r: Result<(), ManifestError>)
        ensures
            self.visited().contains(path@) ==> r == Err::<(), ManifestError>(
                ManifestError::CircularInclude(*path),
            ),
            !self.visited().contains(path@) ==> r == Ok::<(), ManifestError>(()),
    {
        if self.was_visited(path) {
            Err(ManifestError::CircularInclude(path.clone()))
        } else {
            Ok(())
        }
    }

    fn was_visited(&self, path: &String) -> (r: bool)
        ensures
            r == self.visited().contains(path@),
    {
        let mut i: usize = 0;
        while i < self.visited.len()
            invariant
                0 <= i <= self.visited@.len(),
                forall|j: int| 0 <= j < i ==> #[trigger] self.visited@[j]@ != path@,
            decreases self.visited@.len() - i,
        {
            if self.visited[i] == *path {
                assert(self.visited()[i as int] == path@);
                return true;
            }
            i = i + 1;
        }
        assert forall|j: int| 0 <= j < self.visited().len() implies self.visited()[j] != path@ by {
            assert(self.visited()[j] == self.visited@[j]@);
        }
        false
    }

    /// Takes the manifest read from the canonical path `path` and says what
    /// to do next.  A path loaded before is refused as a circular include,
    /// and the loader is left as it was.
    pub fn on_loaded(&mut self, path: String, manifest: Manifest) -> (r: Result<LoadStep, ManifestError>)
        requires
            frames_wf(old(self).frames()),
        ensures
            frames_wf(final(self).frames()),
            old(self).visited().contains(path@) ==> {
                &&& r == Err::<LoadStep, ManifestError>(ManifestError::CircularInclude(path))
                &&& final(self).visited() == old(self).visited()
                &&& final(self).frames() == old(self).frames()
            },
            !old(self).visited().contains(path@) ==> {
                &&& r matches Ok(step)
                &&& final(self).visited() == old(self).visited().push(path@)
                &&& (final(self).frames(), step_view(step)) == advance(
                    old(self).frames().push(open_frame(path@, manifest)),
                )
            },
            r matches Ok(LoadStep::Done(res)) ==> forall|i: int|
                0 <= i < res.packages@.len() ==> !#[trigger] name_taken_before(res.packages@, i),
    {
        if self.was_visited(&path) {
            return Err(ManifestError::CircularInclude(path));
        }
        let ghost old_frames = self.frames();
        let dir = match parent_of(path.as_str()) {
            Some(p) => p,
            None => String::from_str("."),
        };
        let includes = match manifest.includes {
            Some(v) => v,
            None => Vec::new(),
        };
        let own_options = match manifest.options {
            Some(o) => o,
            None => ManifestOptions::default(),
        };
        let frame = Frame {
            dir,
            includes,
            next: 0,
            packages: Vec::new(),
            options: ManifestOptions::default(),
            own_packages: manifest.packages,
            own_options,
        };
        assert(frame@ == open_frame(path@, manifest));
        self.visited.push(path);
        self.stack.push(frame);
        proof {
            assert(self.frames() =~= old_frames.push(open_frame(path@, manifest)));
            assert(self.visited() =~= old(self).visited().push(path@));
        }
        let step = self.step_forward();
        Ok(step)
    }

    fn step_forward(&mut self) -> (step: LoadStep)
        requires
            old(self).stack@.len() > 0,
            frames_wf(old(self).frames()),
        ensures
            final(self).visited() == old(self).visited(),
            frames_wf(final(self).frames()),
            (final(self).frames(), step_view(step)) == advance(old(self).frames()),
            step matches LoadStep::Done(res) ==> forall|i: int|
                0 <= i < res.packages@.len() ==> !#[trigger] name_taken_before(res.packages@, i),
    {
        loop
            invariant
                self.stack@.len() > 0,
                self.visited() == old(self).visited(),
                frames_wf(self.frames()),
                advance(self.frames()) == advance(old(self).frames()),
            decreases self.stack@.len(),
        {
            let ghost cur = self.frames();
            let last = self.stack.len() - 1;
            assert(cur[last as int] == self.stack@[last as int]@);
            if self.stack[last].next < self.stack[last].includes.len() {
                let next = self.stack[last].next;
                let target = {
                    let top = &self.stack[last];
                    let inc = &top.includes[next];
                    if inc.as_str().unicode_len() > 0 && starts_with_root(inc.as_str()) {
                        inc.clone()
                    } else {
                        join_path(top.dir.as_str(), inc.as_str())
                    }
                };
                let mut top = self.stack.pop().unwrap();
                top.next = next + 1;
                self.stack.push(top);
                proof {
                    assert(self.frames() =~= cur.update(
                        last as int,
                        FrameView { next: cur.last().next + 1, ..cur.last() },
                    ));
                }
                return LoadStep::Read(target);
            }
            let top = self.stack.pop().unwrap();
            let Frame { dir: _, includes: _, next: _, packages, options, own_packages, own_options } = top;
            let mut all = packages;
            let mut own = own_packages;
            all.append(&mut own);
            let ghost joined = all@;
            let result = ResolvedManifest {
                packages: dedupe_packages(all),
                options: merge_options(options, own_options),
            };
            proof {
                lemma_dedupe_has_no_duplicates(joined);
            }
            if self.stack.len() == 0 {
                proof {
                    assert(self.frames() =~= Seq::<FrameView>::empty());
                }
                return LoadStep::Done(result);
            }
            let mut below = self.stack.pop().unwrap();
            let ghost below_before = below@;
            let ResolvedManifest { packages: mut rp, options: ro } = result;
            below.packages.append(&mut rp);
            below.options = merge_options(below.options, ro);
            self.stack.push(below);
            proof {
                let b = cur.drop_last();
                assert(b.last() == below_before);
                assert(self.frames() =~= b.update(b.len() - 1, absorb(b.last(), finish_frame(cur.last()))));
            }
        }
    }
}

/// Whether a nonempty path text starts with `/`.
fn starts_with_root(p: &str) -> (r: bool)
    requires
        p@.len() > 0,
    ensures
        r == (p@[0] == '/'),
{
    p.get_char(0) == '/'
}

} // verus!
