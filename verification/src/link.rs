//! The layout of `node_modules`, and the walk that links a package's
//! dependencies into it.
//!
//! Each package version has a directory of its own for its dependencies,
//! `node_modules/.qipi/<name>@<version>/node_modules`. A dependency is a
//! symbolic link there to its cache entry, and the first version linked
//! under a name is also reached from `node_modules/<name>`.

use crate::cache::{cache_dir, cache_entry, get_package_cache_path};
use crate::config::{Config, ConfigView};
use crate::disk::{
    lemma_run_first_writer_wins, lemma_run_idempotent, lemma_run_touches_only_step_paths, run,
    step_path, steps_view, FsStep, FsStepView, World,
};
use crate::package::pairs_view;
use crate::text::{join2, join3, same};
use crate::version::{parse_version, spec_parse_version, VersionError};
use vstd::prelude::*;

verus! {

/// The project's `node_modules` directory.
pub open spec fn node_modules(project: Seq<char>) -> Seq<char> {
    project + "/node_modules"@
}

/// The directory under which every package version has its own.
pub open spec fn store(project: Seq<char>) -> Seq<char> {
    node_modules(project) + "/.qipi"@
}

/// The directory of one package version.
pub open spec fn link_node(project: Seq<char>, name: Seq<char>, version: Seq<char>) -> Seq<char> {
    store(project) + "/"@ + name + "@"@ + version
}

/// The directory that holds the dependencies of one package version.
pub open spec fn isolated_dir(project: Seq<char>, name: Seq<char>, version: Seq<char>) -> Seq<
    char,
> {
    link_node(project, name, version) + "/node_modules"@
}

/// The path of the entry `name` in the directory `dir`.
pub open spec fn slot(dir: Seq<char>, name: Seq<char>) -> Seq<char> {
    dir + "/"@ + name
}

/// The steps that link a package version by itself: its directory, in it a
/// link under its own name to its cache entry, and that link hoisted to the
/// project's `node_modules`.
pub open spec fn spec_link_package(cfg: ConfigView, name: Seq<char>, version: Seq<char>) -> Seq<
    FsStepView,
> {
    let dir = isolated_dir(cfg.project_root, name, version);
    seq![
        FsStepView::EnsureDir { path: dir },
        FsStepView::EnsureLink {
            target: cache_entry(cfg.cache_root, name, version),
            link: slot(dir, name),
        },
        FsStepView::EnsureLink {
            target: slot(dir, name),
            link: slot(node_modules(cfg.project_root), name),
        },
    ]
}

/// The steps that link a dependency seen for the first time: a link to its
/// cache entry in the directory `dir` of the package that needs it, and
/// that link hoisted to the project's `node_modules`, where the first one
/// under a name stays.
pub open spec fn spec_dependency_links(
    cfg: ConfigView,
    dir: Seq<char>,
    name: Seq<char>,
    version: Seq<char>,
) -> Seq<FsStepView> {
    seq![
        FsStepView::EnsureLink {
            target: cache_entry(cfg.cache_root, name, version),
            link: slot(dir, name),
        },
        FsStepView::EnsureLink {
            target: slot(dir, name),
            link: slot(node_modules(cfg.project_root), name),
        },
    ]
}

/// The steps that link a version beside the one already resolved under its
/// name: its own directory and in it the link to its cache entry. Nothing
/// is hoisted.
pub open spec fn spec_side_slot(cfg: ConfigView, name: Seq<char>, version: Seq<char>) -> Seq<
    FsStepView,
> {
    let dir = isolated_dir(cfg.project_root, name, version);
    seq![
        FsStepView::EnsureDir { path: dir },
        FsStepView::EnsureLink {
            target: cache_entry(cfg.cache_root, name, version),
            link: slot(dir, name),
        },
    ]
}

fn node_modules_path(config: &Config) -> (r: String)
    ensures
        r@ == node_modules(config@.project_root),
{
    join2(config.project_root.as_str(), "/node_modules")
}

fn isolated_dir_path(config: &Config, name: &str, version: &str) -> (r: String)
    ensures
        r@ == isolated_dir(config@.project_root, name@, version@),
{
    let modules = node_modules_path(config);
    let store = join2(modules.as_str(), "/.qipi");
    let named = join3(store.as_str(), "/", name);
    let node = join3(named.as_str(), "@", version);
    join2(node.as_str(), "/node_modules")
}

fn slot_path(dir: &str, name: &str) -> (r: String)
    ensures
        r@ == slot(dir@, name@),
{
    join3(dir, "/", name)
}

/// Plans the links of a package version by itself.
pub fn link_package(config: &Config, name: &str, version: &str) -> (r: Vec<FsStep>)
    ensures
        steps_view(r@) == spec_link_package(config@, name@, version@),
{
    let dir = isolated_dir_path(config, name, version);
    let own = slot_path(dir.as_str(), name);
    let modules = node_modules_path(config);
    let mut r: Vec<FsStep> = Vec::new();
    r.push(FsStep::EnsureDir { path: dir });
    r.push(
        FsStep::EnsureLink {
            target: get_package_cache_path(config.cache_root.as_str(), name, version),
            link: own.clone(),
        },
    );
    r.push(FsStep::EnsureLink { target: own, link: slot_path(modules.as_str(), name) });
    assert(steps_view(r@) =~= spec_link_package(config@, name@, version@));
    r
}

/// Plans the links of a dependency seen for the first time, inside the
/// directory of the package that needs it. The cache must hold the entry
/// before the steps are taken.
pub fn download_and_symlink_dependency(
    config: &Config,
    dep_name: &str,
    dep_version: &str,
    package_node_modules_dir: &str,
) -> (r: Vec<FsStep>)
    ensures
        steps_view(r@) == spec_dependency_links(
            config@,
            package_node_modules_dir@,
            dep_name@,
            dep_version@,
        ),
{
    let own = slot_path(package_node_modules_dir, dep_name);
    let modules = node_modules_path(config);
    let mut r: Vec<FsStep> = Vec::new();
    r.push(
        FsStep::EnsureLink {
            target: get_package_cache_path(config.cache_root.as_str(), dep_name, dep_version),
            link: own.clone(),
        },
    );
    r.push(FsStep::EnsureLink { target: own, link: slot_path(modules.as_str(), dep_name) });
    assert(steps_view(r@) =~= spec_dependency_links(
        config@,
        package_node_modules_dir@,
        dep_name@,
        dep_version@,
    ));
    r
}

/// Plans the links of a version beside the one resolved under its name.
pub fn side_slot(config: &Config, dep_name: &str, dep_version: &str) -> (r: Vec<FsStep>)
    ensures
        steps_view(r@) == spec_side_slot(config@, dep_name@, dep_version@),
{
    let dir = isolated_dir_path(config, dep_name, dep_version);
    let own = slot_path(dir.as_str(), dep_name);
    let mut r: Vec<FsStep> = Vec::new();
    r.push(FsStep::EnsureDir { path: dir });
    r.push(
        FsStep::EnsureLink {
            target: get_package_cache_path(config.cache_root.as_str(), dep_name, dep_version),
            link: own,
        },
    );
    assert(steps_view(r@) =~= spec_side_slot(config@, dep_name@, dep_version@));
    r
}

/// The versions resolved so far in one walk, by package name.
#[derive(Debug)]
pub struct Resolved {
    log: Vec<(String, String)>,
}

/// The map that a list of names and versions describes; a later pair
/// replaces an earlier one of the same name.
pub open spec fn resolved_of(log: Seq<(String, String)>) -> Map<Seq<char>, Seq<char>>
    decreases log.len(),
{
    if log.len() == 0 {
        Map::empty()
    } else {
        resolved_of(log.drop_last()).insert(log.last().0@, log.last().1@)
    }
}

impl View for Resolved {
    type V = Map<Seq<char>, Seq<char>>;

    closed spec fn view(&self) -> Map<Seq<char>, Seq<char>> {
        resolved_of(self.log@)
    }
}

impl Resolved {
    /// Nothing resolved.
    pub fn new() -> (r: Resolved)
        ensures
            r@ == Map::<Seq<char>, Seq<char>>::empty(),
    {
        Resolved { log: Vec::new() }
    }

    /// The version resolved under `name`, if there is one.
    pub fn get(&self, name: &str) -> (r: Option<String>)
        ensures
            r is Some == self@.contains_key(name@),
            r is Some ==> r->Some_0@ == self@[name@],
    {
        let mut i: usize = self.log.len();
        assert(self.log@.take(i as int) == self.log@);
        while i > 0
            invariant
                i <= self.log.len(),
                self@.contains_key(name@) == resolved_of(self.log@.take(i as int)).contains_key(
                    name@,
                ),
                self@.contains_key(name@) ==> self@[name@] == resolved_of(
                    self.log@.take(i as int),
                )[name@],
            decreases i,
        {
            assert(self.log@.take(i as int).drop_last() == self.log@.take(i - 1));
            i = i - 1;
            if same(self.log[i].0.as_str(), name) {
                return Some(self.log[i].1.clone());
            }
        }
        None
    }

    /// Records `version` under `name`.
    pub fn insert(&mut self, name: &str, version: &str)
        ensures
            final(self)@ == old(self)@.insert(name@, version@),
    {
        self.log.push((String::from_str(name), String::from_str(version)));
        assert(self.log@.drop_last() == old(self).log@);
    }
}

/// How a dependency stands to what the walk has resolved.
#[derive(Clone, Copy, Debug, PartialEq, Eq, Structural)]
pub enum Resolution {
    /// Its name was not resolved before.
    First,
    /// Its name was resolved before, to this version.
    Repeat,
    /// Its name was resolved before, to another version.
    Conflict,
}

/// What to do for one dependency.
#[derive(Debug)]
pub struct DepLink {
    pub name: String,
    /// The exact version that the range was reduced to.
    pub version: String,
    pub resolution: Resolution,
    /// The cache entry of the version. It must be there before the steps
    /// are taken: it is fetched and unpacked first where it is missing.
    pub entry: String,
    /// The layout steps.
    pub steps: Vec<FsStep>,
}

/// A `DepLink` as plain values.
pub struct DepLinkView {
    pub name: Seq<char>,
    pub version: Seq<char>,
    pub resolution: Resolution,
    pub entry: Seq<char>,
    pub steps: Seq<FsStepView>,
}

impl View for DepLink {
    type V = DepLinkView;

    open spec fn view(&self) -> DepLinkView {
        DepLinkView {
            name: self.name@,
            version: self.version@,
            resolution: self.resolution,
            entry: self.entry@,
            steps: steps_view(self.steps@),
        }
    }
}

/// A package whose dependencies are being linked.
#[derive(Debug)]
pub struct Frame {
    /// The directory that holds the package's dependencies.
    pub dir: String,
    /// The package's dependencies, each a name and a range token.
    pub deps: Vec<(String, String)>,
    /// How many of them are done.
    pub next: usize,
}

/// A `Frame` as plain values: its directory and the dependencies left.
pub struct FrameView {
    pub dir: Seq<char>,
    pub pending: Seq<(Seq<char>, Seq<char>)>,
}

impl View for Frame {
    type V = FrameView;

    open spec fn view(&self) -> FrameView {
        FrameView {
            dir: self.dir@,
            pending: if self.next <= self.deps@.len() {
                pairs_view(self.deps@).skip(self.next as int)
            } else {
                Seq::empty()
            },
        }
    }
}

/// The state of one walk over a dependency tree: what is resolved, and the
/// packages being linked, the innermost last.
#[derive(Debug)]
pub struct LinkState {
    pub resolved: Resolved,
    pub frames: Vec<Frame>,
}

/// A `LinkState` as plain values.
pub struct LinkStateView {
    pub resolved: Map<Seq<char>, Seq<char>>,
    pub frames: Seq<FrameView>,
}

/// The views of a list of frames.
pub open spec fn frames_view(frames: Seq<Frame>) -> Seq<FrameView> {
    Seq::new(frames.len(), |i: int| frames[i]@)
}

impl View for LinkState {
    type V = LinkStateView;

    open spec fn view(&self) -> LinkStateView {
        LinkStateView { resolved: self.resolved@, frames: frames_view(self.frames@) }
    }
}

/// The frames without the innermost ones that have no dependency left.
pub open spec fn settled(frames: Seq<FrameView>) -> Seq<FrameView>
    decreases frames.len(),
{
    if frames.len() > 0 && frames.last().pending.len() == 0 {
        settled(frames.drop_last())
    } else {
        frames
    }
}

/// What to do for the dependency `name` at `version` of the package whose
/// directory is `dir`, given what is resolved. In every case the version's
/// cache entry is asked for. A name not resolved before is linked into
/// `dir` and hoisted. A name resolved before, to this version or to
/// another, is linked into the directory of its own version and leaves
/// what is resolved as it is.
pub open spec fn spec_dep_link(
    cfg: ConfigView,
    dir: Seq<char>,
    name: Seq<char>,
    version: Seq<char>,
    resolved: Map<Seq<char>, Seq<char>>,
) -> DepLinkView {
    if !resolved.contains_key(name) {
        DepLinkView {
            name,
            version,
            resolution: Resolution::First,
            entry: cache_entry(cfg.cache_root, name, version),
            steps: spec_dependency_links(cfg, dir, name, version),
        }
    } else {
        DepLinkView {
            name,
            version,
            resolution: if resolved[name] == version {
                Resolution::Repeat
            } else {
                Resolution::Conflict
            },
            entry: cache_entry(cfg.cache_root, name, version),
            steps: spec_side_slot(cfg, name, version),
        }
    }
}

/// What is resolved after the dependency `name` at `version` was handled:
/// the first version under a name stays.
pub open spec fn resolved_after(
    resolved: Map<Seq<char>, Seq<char>>,
    name: Seq<char>,
    version: Seq<char>,
) -> Map<Seq<char>, Seq<char>> {
    if resolved.contains_key(name) {
        resolved
    } else {
        resolved.insert(name, version)
    }
}

/// Linking a package version a second time changes nothing, whatever the
/// tree was before the first time.
pub proof fn lemma_link_package_idempotent(
    w: World,
    cfg: ConfigView,
    name: Seq<char>,
    version: Seq<char>,
)
    ensures
        run(run(w, spec_link_package(cfg, name, version)), spec_link_package(cfg, name, version))
            == run(w, spec_link_package(cfg, name, version)),
{
    lemma_run_idempotent(w, spec_link_package(cfg, name, version));
}

/// Every link that the steps make points to a path that exists once the
/// steps are taken.
pub open spec fn no_link_dangles(w: World, steps: Seq<FsStepView>) -> bool {
    forall|i: int|
        0 <= i < steps.len() ==> (#[trigger] steps[i] matches FsStepView::EnsureLink {
            target,
            link,
        } ==> run(w, steps).contains_key(target))
}

/// Where the cache holds a version, linking it leaves no link dangling:
/// not as a root package, not as a dependency seen for the first time in
/// the directory `dir`, and not beside a version resolved before.
pub proof fn lemma_links_point_to_what_exists(
    w: World,
    cfg: ConfigView,
    dir: Seq<char>,
    name: Seq<char>,
    version: Seq<char>,
)
    requires
        w.contains_key(cache_entry(cfg.cache_root, name, version)),
    ensures
        no_link_dangles(w, spec_link_package(cfg, name, version)),
        no_link_dangles(w, spec_dependency_links(cfg, dir, name, version)),
        no_link_dangles(w, spec_side_slot(cfg, name, version)),
{
    let entry = cache_entry(cfg.cache_root, name, version);
    let root = spec_link_package(cfg, name, version);
    lemma_run_first_writer_wins(w, root);
    assert(run(w, root).contains_key(entry));
    assert(run(w, root).contains_key(step_path(root[1])));
    let first = spec_dependency_links(cfg, dir, name, version);
    lemma_run_first_writer_wins(w, first);
    assert(run(w, first).contains_key(entry));
    assert(run(w, first).contains_key(step_path(first[0])));
    let side = spec_side_slot(cfg, name, version);
    lemma_run_first_writer_wins(w, side);
    assert(run(w, side).contains_key(entry));
}

/// Two texts that differ between the same beginning and the same end
/// differ as wholes.
pub proof fn lemma_differs_within(
    before: Seq<char>,
    one: Seq<char>,
    other: Seq<char>,
    after: Seq<char>,
)
    requires
        one != other,
    ensures
        before + one + after != before + other + after,
{
    let a = before + one + after;
    let b = before + other + after;
    if a == b {
        assert(a.len() == b.len());
        assert forall|i: int| 0 <= i < one.len() implies one[i] == other[i] by {
            assert(a[before.len() + i] == one[i]);
            assert(b[before.len() + i] == other[i]);
        }
        assert(one =~= other);
    }
}

/// Two versions of a package never share a place: their cache entries,
/// their directories and the links inside these are different paths.
pub proof fn lemma_versions_do_not_collide(
    cfg: ConfigView,
    name: Seq<char>,
    one: Seq<char>,
    other: Seq<char>,
)
    requires
        one != other,
    ensures
        cache_entry(cfg.cache_root, name, one) != cache_entry(cfg.cache_root, name, other),
        isolated_dir(cfg.project_root, name, one) != isolated_dir(cfg.project_root, name, other),
        slot(isolated_dir(cfg.project_root, name, one), name) != slot(
            isolated_dir(cfg.project_root, name, other),
            name,
        ),
{
    let empty = Seq::<char>::empty();
    let cached = cache_dir(cfg.cache_root, name) + "/"@;
    lemma_differs_within(cached, one, other, empty);
    assert(cache_entry(cfg.cache_root, name, one) =~= cached + one + empty);
    assert(cache_entry(cfg.cache_root, name, other) =~= cached + other + empty);
    let before = store(cfg.project_root) + "/"@ + name + "@"@;
    let after = "/node_modules"@;
    lemma_differs_within(before, one, other, after);
    let inside = after + "/"@ + name;
    lemma_differs_within(before, one, other, inside);
    assert(slot(isolated_dir(cfg.project_root, name, one), name) =~= before + one + inside);
    assert(slot(isolated_dir(cfg.project_root, name, other), name) =~= before + other + inside);
}

/// Linking a version beside the one resolved before leaves the hoisted
/// link of its name as it was: there if it was there, with the same
/// target, and absent if it was absent.
pub proof fn lemma_side_slot_keeps_hoisted_link(
    w: World,
    cfg: ConfigView,
    name: Seq<char>,
    version: Seq<char>,
)
    ensures
        ({
            let hoisted = slot(node_modules(cfg.project_root), name);
            let after = run(w, spec_side_slot(cfg, name, version));
            &&& after.contains_key(hoisted) == w.contains_key(hoisted)
            &&& w.contains_key(hoisted) ==> after[hoisted] == w[hoisted]
        }),
{
    let hoisted = slot(node_modules(cfg.project_root), name);
    let steps = spec_side_slot(cfg, name, version);
    let dir = isolated_dir(cfg.project_root, name, version);
    assert(dir.len() > hoisted.len()) by {
        reveal_strlit("/");
        reveal_strlit("/.qipi");
        reveal_strlit("@");
    }
    assert(slot(dir, name).len() > hoisted.len());
    assert forall|i: int| 0 <= i < steps.len() implies #[trigger] step_path(steps[i])
        != hoisted by {
        if i == 0 {
            assert(step_path(steps[0]) == dir);
        } else {
            assert(step_path(steps[1]) == slot(dir, name));
        }
    }
    lemma_run_touches_only_step_paths(w, steps, hoisted);
}

/// A name is resolved to one version for the whole walk: handling a
/// dependency never changes the version of a name resolved before, its own
/// name among them, and resolves no name but its own.
pub proof fn lemma_first_resolution_stays(
    resolved: Map<Seq<char>, Seq<char>>,
    name: Seq<char>,
    version: Seq<char>,
)
    ensures
        forall|n: Seq<char>|
            resolved.contains_key(n) ==> #[trigger] resolved_after(
                resolved,
                name,
                version,
            ).contains_key(n) && resolved_after(resolved, name, version)[n] == resolved[n],
        forall|n: Seq<char>|
            #[trigger] resolved_after(resolved, name, version).contains_key(n)
                ==> resolved.contains_key(n) || n == name,
        resolved_after(resolved, name, version).contains_key(name),
{
}

/// No name is seen for the first time twice: once a dependency was handled,
/// a dependency of the same name is a repeat or a conflict, whatever else
/// was resolved in between. So every package is entered at most once in a
/// walk, and a cycle of dependencies ends it.
pub proof fn lemma_no_name_is_first_twice(
    cfg: ConfigView,
    dir: Seq<char>,
    name: Seq<char>,
    version: Seq<char>,
    again: Seq<char>,
    resolved: Map<Seq<char>, Seq<char>>,
    later: Map<Seq<char>, Seq<char>>,
)
    requires
        forall|n: Seq<char>|
            resolved_after(resolved, name, version).contains_key(n) ==> #[trigger] later.contains_key(
                n,
            ),
    ensures
        spec_dep_link(cfg, dir, name, version, resolved).resolution == Resolution::First
            <==> !resolved.contains_key(name),
        spec_dep_link(cfg, dir, name, again, later).resolution != Resolution::First,
{
    assert(resolved_after(resolved, name, version).contains_key(name));
}

impl LinkState {
    /// The state before a walk: nothing resolved, no package entered.
    pub fn new() -> (r: LinkState)
        ensures
            r@.resolved == Map::<Seq<char>, Seq<char>>::empty(),
            r@.frames == Seq::<FrameView>::empty(),
    {
        let r = LinkState { resolved: Resolved::new(), frames: Vec::new() };
        assert(r@.frames =~= Seq::<FrameView>::empty());
        r
    }

    /// Enters a package: its dependencies are linked next, before the rest
    /// of the package that was being linked. Returns the step that makes
    /// the package's directory.
    pub fn enter(
        &mut self,
        config: &Config,
        package_name: &str,
        version: &str,
        dependencies: Vec<(String, String)>,
    ) -> (r: FsStep)
        ensures
            r@ == (FsStepView::EnsureDir {
                path: isolated_dir(config@.project_root, package_name@, version@),
            }),
            final(self)@.resolved == old(self)@.resolved,
            final(self)@.frames == old(self)@.frames.push(
                FrameView {
                    dir: isolated_dir(config@.project_root, package_name@, version@),
                    pending: pairs_view(dependencies@),
                },
            ),
    {
        let dir = isolated_dir_path(config, package_name, version);
        assert(pairs_view(dependencies@).skip(0) =~= pairs_view(dependencies@));
        self.frames.push(Frame { dir: dir.clone(), deps: dependencies, next: 0 });
        assert(final(self)@.frames =~= old(self)@.frames.push(
            FrameView {
                dir: isolated_dir(config@.project_root, package_name@, version@),
                pending: pairs_view(dependencies@),
            },
        ));
        FsStep::EnsureDir { path: dir }
    }

    /// Goes on below a dependency once its own dependencies are known: a
    /// dependency seen for the first time that declares at least one is
    /// entered, and no other.
    pub fn descend(
        &mut self,
        config: &Config,
        link: &DepLink,
        dependencies: Option<Vec<(String, String)>>,
    ) -> (r: Option<FsStep>)
        ensures
            final(self)@.resolved == old(self)@.resolved,
            link.resolution == Resolution::First && dependencies is Some
                && dependencies->Some_0@.len() > 0 ==> {
                &&& r is Some
                &&& r->Some_0@ == (FsStepView::EnsureDir {
                    path: isolated_dir(config@.project_root, link.name@, link.version@),
                })
                &&& final(self)@.frames == old(self)@.frames.push(
                    FrameView {
                        dir: isolated_dir(config@.project_root, link.name@, link.version@),
                        pending: pairs_view(dependencies->Some_0@),
                    },
                )
            },
            !(link.resolution == Resolution::First && dependencies is Some
                && dependencies->Some_0@.len() > 0) ==> r is None && final(self)@.frames == old(
                self,
            )@.frames,
    {
        match link.resolution {
            Resolution::First => match dependencies {
                Some(deps) => {
                    if deps.len() > 0 {
                        Some(self.enter(config, link.name.as_str(), link.version.as_str(), deps))
                    } else {
                        None
                    }
                },
                None => None,
            },
            _ => None,
        }
    }
}

/// Takes the next dependency of the walk.
///
/// Packages that have no dependency left are left first. Then, with no
/// package entered, the walk is over and `None` is returned. Else the next
/// dependency of the innermost package is reduced to its exact version and
/// handled as `spec_dep_link` says, and what is resolved becomes
/// `resolved_after`. A range that names no version is refused: the
/// dependency stays where it was and nothing is resolved.
pub fn link_dependency(state: &mut LinkState, config: &Config) -> (r: Result<
    Option<DepLink>,
    VersionError,
>)
    ensures
        ({
            let frames = settled(old(state)@.frames);
            if frames.len() == 0 {
                &&& r matches Ok(None)
                &&& final(state)@.frames == frames
                &&& final(state)@.resolved == old(state)@.resolved
            } else {
                let top = frames.last();
                let dep = top.pending[0];
                match spec_parse_version(dep.1) {
                    None => {
                        &&& r matches Err(VersionError::InvalidVersionRange(t)) && t@ == dep.1
                        &&& final(state)@.frames == frames
                        &&& final(state)@.resolved == old(state)@.resolved
                    },
                    Some(exact) => {
                        &&& r matches Ok(Some(link)) && link@ == spec_dep_link(
                            config@,
                            top.dir,
                            dep.0,
                            exact,
                            old(state)@.resolved,
                        )
                        &&& final(state)@.frames == frames.drop_last().push(
                            FrameView { dir: top.dir, pending: top.pending.drop_first() },
                        )
                        &&& final(state)@.resolved == resolved_after(
                            old(state)@.resolved,
                            dep.0,
                            exact,
                        )
                    },
                }
            }
        }),
{
    while state.frames.len() > 0 && state.frames[state.frames.len() - 1].next
        >= state.frames[state.frames.len() - 1].deps.len()
        invariant
            state.resolved@ == old(state).resolved@,
            settled(state@.frames) == settled(old(state)@.frames),
        decreases state.frames.len(),
    {
        assert(state@.frames.last().pending.len() == 0);
        let ghost before = state@.frames;
        state.frames.pop();
        assert(state@.frames =~= before.drop_last());
    }
    if state.frames.len() == 0 {
        assert(state@.frames =~= Seq::<FrameView>::empty());
        return Ok(None);
    }
    let ghost frames = state@.frames;
    let ghost top = frames.last();
    assert(top.pending.len() > 0);
    assert(settled(frames) == frames);
    let last = state.frames.len() - 1;
    let k = state.frames[last].next;
    let name = state.frames[last].deps[k].0.clone();
    let range = state.frames[last].deps[k].1.clone();
    assert(top.pending[0] == (name@, range@));
    let exact = match parse_version(range.as_str()) {
        Ok(v) => v,
        Err(e) => {
            return Err(e);
        },
    };
    let mut frame = state.frames.pop().unwrap();
    frame.next = k + 1;
    let ghost rest = pairs_view(frame.deps@).skip(k + 1);
    assert(rest =~= top.pending.drop_first());
    let steps = match state.resolved.get(name.as_str()) {
        None => {
            let steps = download_and_symlink_dependency(
                config,
                name.as_str(),
                exact.as_str(),
                frame.dir.as_str(),
            );
            state.resolved.insert(name.as_str(), exact.as_str());
            (Resolution::First, steps)
        },
        Some(known) => {
            let steps = side_slot(config, name.as_str(), exact.as_str());
            if same(known.as_str(), exact.as_str()) {
                (Resolution::Repeat, steps)
            } else {
                (Resolution::Conflict, steps)
            }
        },
    };
    state.frames.push(frame);
    assert(state@.frames =~= frames.drop_last().push(
        FrameView { dir: top.dir, pending: top.pending.drop_first() },
    ));
    let entry = get_package_cache_path(config.cache_root.as_str(), name.as_str(), exact.as_str());
    Ok(Some(DepLink { name, version: exact, resolution: steps.0, entry, steps: steps.1 }))
}

} // verus!
