//! A model of the directory tree that an installation writes: which paths
//! exist, and which of them are symbolic links to where.
//!
//! Layout steps are written as check-then-create: a step whose path already
//! exists does nothing. `World` gives the steps their meaning, and `Disk` is
//! an executable tree that follows it.

use crate::text::same;
use vstd::prelude::*;

verus! {

/// What stands at a path.
#[derive(Debug)]
pub enum Node {
    Dir,
    File,
    /// A symbolic link and the path it points to.
    Link(String),
}

/// A `Node` as plain values.
pub enum NodeView {
    Dir,
    File,
    Link(Seq<char>),
}

impl View for Node {
    type V = NodeView;

    open spec fn view(&self) -> NodeView {
        match self {
            Node::Dir => NodeView::Dir,
            Node::File => NodeView::File,
            Node::Link(target) => NodeView::Link(target@),
        }
    }
}

impl Node {
    /// A copy of the node.
    pub fn duplicate(&self) -> (r: Node)
        ensures
            r@ == self@,
    {
        match self {
            Node::Dir => Node::Dir,
            Node::File => Node::File,
            Node::Link(target) => Node::Link(target.clone()),
        }
    }
}

/// One step of laying out `node_modules`.
#[derive(Debug)]
pub enum FsStep {
    /// Create the directory unless the path exists.
    EnsureDir { path: String },
    /// Create a symbolic link at `link` that points to `target`, unless
    /// `link` exists.
    EnsureLink { target: String, link: String },
}

/// An `FsStep` as plain values.
pub enum FsStepView {
    EnsureDir { path: Seq<char> },
    EnsureLink { target: Seq<char>, link: Seq<char> },
}

impl View for FsStep {
    type V = FsStepView;

    open spec fn view(&self) -> FsStepView {
        match self {
            FsStep::EnsureDir { path } => FsStepView::EnsureDir { path: path@ },
            FsStep::EnsureLink { target, link } => FsStepView::EnsureLink {
                target: target@,
                link: link@,
            },
        }
    }
}

/// The views of a list of steps.
pub open spec fn steps_view(steps: Seq<FsStep>) -> Seq<FsStepView> {
    Seq::new(steps.len(), |i: int| steps[i]@)
}

/// The paths that exist, each with what stands there.
pub type World = Map<Seq<char>, NodeView>;

/// The path that a step creates.
pub open spec fn step_path(step: FsStepView) -> Seq<char> {
    match step {
        FsStepView::EnsureDir { path } => path,
        FsStepView::EnsureLink { target, link } => link,
    }
}

/// What a step creates at its path.
pub open spec fn step_node(step: FsStepView) -> NodeView {
    match step {
        FsStepView::EnsureDir { path } => NodeView::Dir,
        FsStepView::EnsureLink { target, link } => NodeView::Link(target),
    }
}

/// The world after one step: unchanged where the step's path exists, and
/// with the step's node at that path where it did not.
pub open spec fn apply(w: World, step: FsStepView) -> World {
    if w.contains_key(step_path(step)) {
        w
    } else {
        w.insert(step_path(step), step_node(step))
    }
}

/// The world after a list of steps, taken in order.
pub open spec fn run(w: World, steps: Seq<FsStepView>) -> World
    decreases steps.len(),
{
    if steps.len() == 0 {
        w
    } else {
        apply(run(w, steps.drop_last()), steps.last())
    }
}

/// The world after `from` was renamed to `to`: unchanged where `from` does
/// not exist; else `from` is gone and `to` holds what stood at `from`.
pub open spec fn renamed(w: World, from: Seq<char>, to: Seq<char>) -> World {
    if w.contains_key(from) {
        w.remove(from).insert(to, w[from])
    } else {
        w
    }
}

/// Steps never touch what exists: a path of `w` keeps its node, and the
/// path of every step exists afterwards.
pub proof fn lemma_run_first_writer_wins(w: World, steps: Seq<FsStepView>)
    ensures
        forall|p: Seq<char>| w.contains_key(p) ==> #[trigger] run(w, steps).contains_key(p) && run(
            w,
            steps,
        )[p] == w[p],
        forall|i: int|
            0 <= i < steps.len() ==> run(w, steps).contains_key(#[trigger] step_path(steps[i])),
    decreases steps.len(),
{
    if steps.len() > 0 {
        let front = steps.drop_last();
        lemma_run_first_writer_wins(w, front);
        assert forall|p: Seq<char>| w.contains_key(p) implies #[trigger] run(
            w,
            steps,
        ).contains_key(p) && run(w, steps)[p] == w[p] by {
            assert(run(w, front).contains_key(p));
        }
        assert forall|i: int| 0 <= i < steps.len() implies run(w, steps).contains_key(
            #[trigger] step_path(steps[i]),
        ) by {
            if i < steps.len() - 1 {
                assert(front[i] == steps[i]);
                assert(run(w, front).contains_key(step_path(front[i])));
            }
        }
    }
}

/// Steps touch no path but their own: a path that no step creates exists
/// afterwards if and only if it existed before, with what stood there.
pub proof fn lemma_run_touches_only_step_paths(w: World, steps: Seq<FsStepView>, p: Seq<char>)
    requires
        forall|i: int| 0 <= i < steps.len() ==> #[trigger] step_path(steps[i]) != p,
    ensures
        run(w, steps).contains_key(p) == w.contains_key(p),
        w.contains_key(p) ==> run(w, steps)[p] == w[p],
    decreases steps.len(),
{
    if steps.len() > 0 {
        let front = steps.drop_last();
        assert forall|i: int| 0 <= i < front.len() implies #[trigger] step_path(front[i]) != p by {
            assert(front[i] == steps[i]);
        }
        lemma_run_touches_only_step_paths(w, front, p);
        assert(step_path(steps[steps.len() - 1]) != p);
    }
}

/// Steps whose paths all exist change nothing.
pub proof fn lemma_run_on_existing(w: World, steps: Seq<FsStepView>)
    requires
        forall|i: int| 0 <= i < steps.len() ==> w.contains_key(#[trigger] step_path(steps[i])),
    ensures
        run(w, steps) == w,
    decreases steps.len(),
{
    if steps.len() > 0 {
        let front = steps.drop_last();
        assert forall|i: int| 0 <= i < front.len() implies w.contains_key(
            #[trigger] step_path(front[i]),
        ) by {
            assert(front[i] == steps[i]);
        }
        lemma_run_on_existing(w, front);
        assert(w.contains_key(step_path(steps[steps.len() - 1])));
    }
}

/// Running a list of steps a second time changes nothing, whatever the
/// world was before the first run.
pub proof fn lemma_run_idempotent(w: World, steps: Seq<FsStepView>)
    ensures
        run(run(w, steps), steps) == run(w, steps),
{
    lemma_run_first_writer_wins(w, steps);
    lemma_run_on_existing(run(w, steps), steps);
}

/// An executable directory tree: a log of paths created and removed, read
/// from its end.
#[derive(Debug)]
pub struct Disk {
    log: Vec<(String, Option<Node>)>,
}

/// The world that a log describes.
pub open spec fn world_of(log: Seq<(String, Option<Node>)>) -> World
    decreases log.len(),
{
    if log.len() == 0 {
        Map::empty()
    } else {
        let before = world_of(log.drop_last());
        match log.last().1 {
            Some(node) => before.insert(log.last().0@, node@),
            None => before.remove(log.last().0@),
        }
    }
}

impl View for Disk {
    type V = World;

    closed spec fn view(&self) -> World {
        world_of(self.log@)
    }
}

impl Disk {
    /// An empty tree.
    pub fn new() -> (r: Disk)
        ensures
            r@ == Map::<Seq<char>, NodeView>::empty(),
    {
        Disk { log: Vec::new() }
    }

    /// What stands at `path`, if it exists.
    pub fn node(&self, path: &str) -> (r: Option<Node>)
        ensures
            r is Some == self@.contains_key(path@),
            r is Some ==> r->Some_0@ == self@[path@],
    {
        let mut i: usize = self.log.len();
        assert(self.log@.take(i as int) == self.log@);
        while i > 0
            invariant
                i <= self.log.len(),
                self@.contains_key(path@) == world_of(self.log@.take(i as int)).contains_key(
                    path@,
                ),
                self@.contains_key(path@) ==> self@[path@] == world_of(
                    self.log@.take(i as int),
                )[path@],
            decreases i,
        {
            assert(self.log@.take(i as int).drop_last() == self.log@.take(i - 1));
            i = i - 1;
            if same(self.log[i].0.as_str(), path) {
                return match &self.log[i].1 {
                    Some(node) => Some(node.duplicate()),
                    None => None,
                };
            }
        }
        None
    }

    /// Whether `path` exists.
    pub fn has(&self, path: &str) -> (r: bool)
        ensures
            r == self@.contains_key(path@),
    {
        self.node(path).is_some()
    }

    fn record(&mut self, path: &str, node: Option<Node>)
        ensures
            final(self)@ == match node {
                Some(n) => old(self)@.insert(path@, n@),
                None => old(self)@.remove(path@),
            },
    {
        self.log.push((String::from_str(path), node));
        assert(self.log@.drop_last() == old(self).log@);
    }

    /// Creates the directory `path` unless the path exists.
    pub fn create_directory(&mut self, path: &str)
        ensures
            final(self)@ == apply(old(self)@, FsStepView::EnsureDir { path: path@ }),
    {
        if !self.has(path) {
            self.record(path, Some(Node::Dir));
        }
    }

    /// Creates at `link` a symbolic link to `target` unless `link` exists.
    pub fn create_symlink(&mut self, target: &str, link: &str)
        ensures
            final(self)@ == apply(
                old(self)@,
                FsStepView::EnsureLink { target: target@, link: link@ },
            ),
    {
        if !self.has(link) {
            self.record(link, Some(Node::Link(String::from_str(target))));
        }
    }

    /// Writes a file at `path`, in place of whatever stood there.
    pub fn write_file(&mut self, path: &str)
        ensures
            final(self)@ == old(self)@.insert(path@, NodeView::File),
    {
        self.record(path, Some(Node::File));
    }

    /// Removes what stands at `path`.
    pub fn remove(&mut self, path: &str)
        ensures
            final(self)@ == old(self)@.remove(path@),
    {
        self.record(path, None);
    }

    /// Renames `from` to `to` if `from` exists.
    pub fn rename(&mut self, from: &str, to: &str)
        ensures
            final(self)@ == renamed(old(self)@, from@, to@),
    {
        match self.node(from) {
            Some(node) => {
                self.record(from, None);
                self.record(to, Some(node));
            },
            None => {},
        }
    }

    /// Takes one layout step.
    pub fn apply(&mut self, step: &FsStep)
        ensures
            final(self)@ == apply(old(self)@, step@),
    {
        match step {
            FsStep::EnsureDir { path } => self.create_directory(path.as_str()),
            FsStep::EnsureLink { target, link } => self.create_symlink(
                target.as_str(),
                link.as_str(),
            ),
        }
    }

    /// Takes a list of layout steps in order.
    pub fn run(&mut self, steps: &Vec<FsStep>)
        ensures
            final(self)@ == run(old(self)@, steps_view(steps@)),
    {
        let mut i: usize = 0;
        while i < steps.len()
            invariant
                i <= steps.len(),
                self@ == run(old(self)@, steps_view(steps@).take(i as int)),
            decreases steps.len() - i,
        {
            self.apply(&steps[i]);
            proof {
                let done = steps_view(steps@).take(i + 1);
                assert(done.drop_last() == steps_view(steps@).take(i as int));
                assert(done.last() == steps[i as int]@);
            }
            i = i + 1;
        }
        assert(steps_view(steps@).take(i as int) == steps_view(steps@));
    }
}

} // verus!
