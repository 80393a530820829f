//! The tarball cache: where the artifact of a package version lies, and the
//! steps that bring it there.
//!
//! An entry lies at `<root>/<name with / replaced by +>/<version>`. It is
//! made once, by unpacking the registry's tarball beside it and renaming
//! the `package` directory that the tarball wraps its files in.

use crate::disk::{apply, renamed, Disk, FsStepView, NodeView, World};
use crate::text::{join2, join3, replace_char, replaced};
use vstd::prelude::*;

verus! {

/// The directory name of a package in the cache: its name with every `/`
/// replaced by `+`, and no other character altered.
pub open spec fn normalized(name: Seq<char>) -> Seq<char> {
    replaced(name, '/', '+')
}

/// The cache directory of a package, which holds one entry per version.
pub open spec fn cache_dir(root: Seq<char>, name: Seq<char>) -> Seq<char> {
    root + "/"@ + normalized(name)
}

/// The path of the cache entry of one version of a package.
pub open spec fn cache_entry(root: Seq<char>, name: Seq<char>, version: Seq<char>) -> Seq<char> {
    cache_dir(root, name) + "/"@ + version
}

/// Where the tarball is stored while it is unpacked.
pub open spec fn temp_file(root: Seq<char>, name: Seq<char>) -> Seq<char> {
    cache_dir(root, name) + "/.tar.gz"@
}

/// The directory that a registry's tarball wraps its files in, once
/// unpacked into `dir`.
pub open spec fn wrapper_dir(dir: Seq<char>) -> Seq<char> {
    dir + "/package"@
}

/// Flattens a package name into one directory name.
pub fn normalize_package_name(name: &str) -> (r: String)
    ensures
        r@ == normalized(name@),
        r@.len() == name@.len(),
        forall|i: int| 0 <= i < name@.len() ==> r@[i] == (if name@[i] == '/' { '+' } else { name@[i] }),
        forall|i: int| 0 <= i < r@.len() ==> r@[i] != '/',
{
    proof {
        reveal_strlit("+");
    }
    replace_char(name, '/', "+")
}

/// The path of the cache entry of `name` at `version` under `cache_root`.
pub fn get_package_cache_path(cache_root: &str, name: &str, version: &str) -> (r: String)
    ensures
        r@ == cache_entry(cache_root@, name@, version@),
{
    let flat = normalize_package_name(name);
    let dir = join3(cache_root, "/", flat.as_str());
    join3(dir.as_str(), "/", version)
}

/// Whether the cache under `destination` holds `name` at `version`.
pub fn has_tarball_in_cache(disk: &Disk, destination: &str, name: &str, version: &str) -> (r: bool)
    ensures
        r == disk@.contains_key(cache_entry(destination@, name@, version@)),
{
    let entry = get_package_cache_path(destination, name, version);
    disk.has(entry.as_str())
}

/// Why caching a tarball failed.
#[derive(Clone, Copy, Debug, PartialEq, Eq, Structural)]
pub enum CacheError {
    CreateDir,
    Fetch,
    WriteTemp,
    Extract,
    Cleanup,
    Rename,
}

/// One step of bringing a tarball into the cache.
#[derive(Debug)]
pub enum CacheStep {
    /// Create the directory unless it exists.
    CreateDir { path: String },
    /// Obtain the tarball's bytes from the registry.
    Fetch,
    /// Write the bytes to `path`.
    WriteTemp { path: String },
    /// Decompress `archive` and unpack its entries into `into`.
    Extract { archive: String, into: String },
    /// Delete the stored tarball.
    RemoveTemp { path: String },
    /// Rename `from` to `to` if `from` exists.
    Promote { from: String, to: String },
}

/// A `CacheStep` as plain values.
pub enum CacheStepView {
    CreateDir { path: Seq<char> },
    Fetch,
    WriteTemp { path: Seq<char> },
    Extract { archive: Seq<char>, into: Seq<char> },
    RemoveTemp { path: Seq<char> },
    Promote { from: Seq<char>, to: Seq<char> },
}

impl View for CacheStep {
    type V = CacheStepView;

    open spec fn view(&self) -> CacheStepView {
        match self {
            CacheStep::CreateDir { path } => CacheStepView::CreateDir { path: path@ },
            CacheStep::Fetch => CacheStepView::Fetch,
            CacheStep::WriteTemp { path } => CacheStepView::WriteTemp { path: path@ },
            CacheStep::Extract { archive, into } => CacheStepView::Extract {
                archive: archive@,
                into: into@,
            },
            CacheStep::RemoveTemp { path } => CacheStepView::RemoveTemp { path: path@ },
            CacheStep::Promote { from, to } => CacheStepView::Promote { from: from@, to: to@ },
        }
    }
}

/// The views of a list of cache steps.
pub open spec fn cache_steps_view(steps: Seq<CacheStep>) -> Seq<CacheStepView> {
    Seq::new(steps.len(), |i: int| steps[i]@)
}

impl CacheStep {
    /// The error that a failure of this step is reported as.
    pub fn failure(&self) -> (r: CacheError)
        ensures
            r == match self@ {
                CacheStepView::CreateDir { .. } => CacheError::CreateDir,
                CacheStepView::Fetch => CacheError::Fetch,
                CacheStepView::WriteTemp { .. } => CacheError::WriteTemp,
                CacheStepView::Extract { .. } => CacheError::Extract,
                CacheStepView::RemoveTemp { .. } => CacheError::Cleanup,
                CacheStepView::Promote { .. } => CacheError::Rename,
            },
    {
        match self {
            CacheStep::CreateDir { .. } => CacheError::CreateDir,
            CacheStep::Fetch => CacheError::Fetch,
            CacheStep::WriteTemp { .. } => CacheError::WriteTemp,
            CacheStep::Extract { .. } => CacheError::Extract,
            CacheStep::RemoveTemp { .. } => CacheError::Cleanup,
            CacheStep::Promote { .. } => CacheError::Rename,
        }
    }
}

/// The steps that bring the tarball of `name` at `version` into the cache
/// under `destination`: make the package's directory, fetch, store the
/// tarball, unpack it there, delete it, and rename the unpacked `package`
/// directory to the version. A step that fails ends the list, so a tarball
/// that cannot be unpacked stays where it was stored.
pub open spec fn spec_download_tarball(
    destination: Seq<char>,
    name: Seq<char>,
    version: Seq<char>,
) -> Seq<CacheStepView> {
    let dir = cache_dir(destination, name);
    let temp = temp_file(destination, name);
    seq![
        CacheStepView::CreateDir { path: dir },
        CacheStepView::Fetch,
        CacheStepView::WriteTemp { path: temp },
        CacheStepView::Extract { archive: temp, into: dir },
        CacheStepView::RemoveTemp { path: temp },
        CacheStepView::Promote { from: wrapper_dir(dir), to: cache_entry(destination, name, version) },
    ]
}

/// The steps of one request for a cache entry: none where the entry is
/// there, and the download where it is not.
pub open spec fn spec_ensure_cached(
    cached: bool,
    destination: Seq<char>,
    name: Seq<char>,
    version: Seq<char>,
) -> Seq<CacheStepView> {
    if cached {
        Seq::empty()
    } else {
        spec_download_tarball(destination, name, version)
    }
}

/// Plans the download of a tarball into the cache.
pub fn download_tarball(destination: &str, name: &str, version: &str) -> (r: Vec<CacheStep>)
    ensures
        cache_steps_view(r@) == spec_download_tarball(destination@, name@, version@),
{
    let flat = normalize_package_name(name);
    let dir = join3(destination, "/", flat.as_str());
    let temp = join2(dir.as_str(), "/.tar.gz");
    let wrapper = join2(dir.as_str(), "/package");
    let entry = join3(dir.as_str(), "/", version);
    let mut r: Vec<CacheStep> = Vec::new();
    r.push(CacheStep::CreateDir { path: dir.clone() });
    r.push(CacheStep::Fetch);
    r.push(CacheStep::WriteTemp { path: temp.clone() });
    r.push(CacheStep::Extract { archive: temp.clone(), into: dir });
    r.push(CacheStep::RemoveTemp { path: temp });
    r.push(CacheStep::Promote { from: wrapper, to: entry });
    assert(cache_steps_view(r@) =~= spec_download_tarball(destination@, name@, version@));
    r
}

/// Plans one request for a cache entry, given whether the entry is there.
pub fn ensure_cached(cached: bool, destination: &str, name: &str, version: &str) -> (r: Vec<
    CacheStep,
>)
    ensures
        cache_steps_view(r@) == spec_ensure_cached(cached, destination@, name@, version@),
{
    if cached {
        let r: Vec<CacheStep> = Vec::new();
        assert(cache_steps_view(r@) =~= Seq::<CacheStepView>::empty());
        r
    } else {
        download_tarball(destination, name, version)
    }
}

/// How many of the steps fetch from the registry.
pub open spec fn fetches(steps: Seq<CacheStepView>) -> nat
    decreases steps.len(),
{
    if steps.len() == 0 {
        0
    } else {
        fetches(steps.drop_last()) + if steps.last() is Fetch {
            1nat
        } else {
            0nat
        }
    }
}

/// The world after one cache step. `wrapped` says whether the tarball holds
/// its files in a `package` directory, as a registry's tarball does.
pub open spec fn cache_apply(w: World, step: CacheStepView, wrapped: bool) -> World {
    match step {
        CacheStepView::CreateDir { path } => apply(w, FsStepView::EnsureDir { path }),
        CacheStepView::Fetch => w,
        CacheStepView::WriteTemp { path } => w.insert(path, NodeView::File),
        CacheStepView::Extract { archive, into } => if wrapped {
            apply(w, FsStepView::EnsureDir { path: wrapper_dir(into) })
        } else {
            w
        },
        CacheStepView::RemoveTemp { path } => w.remove(path),
        CacheStepView::Promote { from, to } => renamed(w, from, to),
    }
}

/// The world after a list of cache steps that all succeed.
pub open spec fn cache_run(w: World, steps: Seq<CacheStepView>, wrapped: bool) -> World
    decreases steps.len(),
{
    if steps.len() == 0 {
        w
    } else {
        cache_apply(cache_run(w, steps.drop_last(), wrapped), steps.last(), wrapped)
    }
}

/// The stored tarball and the unpacked `package` directory are different
/// paths.
pub proof fn lemma_temp_is_not_wrapper(root: Seq<char>, name: Seq<char>)
    ensures
        temp_file(root, name) != wrapper_dir(cache_dir(root, name)),
{
    reveal_strlit("/.tar.gz");
    reveal_strlit("/package");
    let dir = cache_dir(root, name);
    assert(temp_file(root, name)[dir.len() as int + 1] == '.');
    assert(wrapper_dir(dir)[dir.len() as int + 1] == 'p');
}

/// A download whose steps all succeed on a wrapped tarball leaves the
/// entry in the cache.
pub proof fn lemma_download_fills_cache(
    w: World,
    destination: Seq<char>,
    name: Seq<char>,
    version: Seq<char>,
)
    ensures
        cache_run(w, spec_download_tarball(destination, name, version), true).contains_key(
            cache_entry(destination, name, version),
        ),
        fetches(spec_download_tarball(destination, name, version)) == 1,
{
    let steps = spec_download_tarball(destination, name, version);
    let dir = cache_dir(destination, name);
    let temp = temp_file(destination, name);
    lemma_temp_is_not_wrapper(destination, name);
    let s5 = steps.drop_last();
    let s4 = s5.drop_last();
    let s3 = s4.drop_last();
    let s2 = s3.drop_last();
    let s1 = s2.drop_last();
    let s0 = s1.drop_last();
    assert(s0.len() == 0);
    let w1 = cache_run(w, s1, true);
    let w2 = cache_run(w, s2, true);
    let w3 = cache_run(w, s3, true);
    let w4 = cache_run(w, s4, true);
    let w5 = cache_run(w, s5, true);
    assert(cache_run(w, s0, true) == w);
    assert(s1.last() == steps[0]);
    assert(s2.last() == steps[1]);
    assert(s3.last() == steps[2]);
    assert(s4.last() == steps[3]);
    assert(s5.last() == steps[4]);
    assert(steps.last() == steps[5]);
    assert(w2 == w1);
    assert(w3 == w2.insert(temp, NodeView::File));
    assert(w4.contains_key(wrapper_dir(dir)));
    assert(w5 == w4.remove(temp));
    assert(w5.contains_key(wrapper_dir(dir)));
    assert(fetches(s0) == 0);
    assert(fetches(s1) == 0);
    assert(fetches(s2) == 1);
    assert(fetches(s3) == 1);
    assert(fetches(s4) == 1);
    assert(fetches(s5) == 1);
}

/// A download that stops at an extraction that fails leaves the stored
/// tarball in place.
pub proof fn lemma_failed_extraction_keeps_tarball(
    w: World,
    destination: Seq<char>,
    name: Seq<char>,
    version: Seq<char>,
    wrapped: bool,
)
    ensures
        ({
            let steps = spec_download_tarball(destination, name, version);
            let temp = temp_file(destination, name);
            &&& steps[3] is Extract
            &&& cache_run(w, steps.take(3), wrapped).contains_key(temp)
            &&& cache_run(w, steps.take(3), wrapped)[temp] == NodeView::File
        }),
{
    let steps = spec_download_tarball(destination, name, version);
    let s3 = steps.take(3);
    let s2 = s3.drop_last();
    let s1 = s2.drop_last();
    let s0 = s1.drop_last();
    assert(s0.len() == 0);
    assert(s3.last() == steps[2]);
    assert(s2.last() == steps[1]);
    assert(s1.last() == steps[0]);
    assert(cache_run(w, s0, wrapped) == w);
}

/// Of two requests in a row for one entry the second is a hit: it plans no
/// step. Together they fetch once where the entry was missing and never
/// where it was there. This holds of tarballs that wrap their files in
/// `package`; of any other the entry is not made.
pub proof fn lemma_second_request_is_a_hit(
    w: World,
    destination: Seq<char>,
    name: Seq<char>,
    version: Seq<char>,
)
    ensures
        ({
            let entry = cache_entry(destination, name, version);
            let first = spec_ensure_cached(w.contains_key(entry), destination, name, version);
            let after = cache_run(w, first, true);
            let second = spec_ensure_cached(after.contains_key(entry), destination, name, version);
            &&& after.contains_key(entry)
            &&& second == Seq::<CacheStepView>::empty()
            &&& fetches(first) + fetches(second) == if w.contains_key(entry) {
                0nat
            } else {
                1nat
            }
        }),
{
    lemma_download_fills_cache(w, destination, name, version);
}

/// Takes one cache step on a model tree.
pub fn replay_step(disk: &mut Disk, step: &CacheStep, wrapped: bool)
    ensures
        final(disk)@ == cache_apply(old(disk)@, step@, wrapped),
{
    match step {
        CacheStep::CreateDir { path } => disk.create_directory(path.as_str()),
        CacheStep::Fetch => {},
        CacheStep::WriteTemp { path } => disk.write_file(path.as_str()),
        CacheStep::Extract { archive, into } => {
            if wrapped {
                let wrapper = join2(into.as_str(), "/package");
                disk.create_directory(wrapper.as_str());
            }
        },
        CacheStep::RemoveTemp { path } => disk.remove(path.as_str()),
        CacheStep::Promote { from, to } => disk.rename(from.as_str(), to.as_str()),
    }
}

/// Takes a list of cache steps on a model tree.
pub fn replay(disk: &mut Disk, steps: &Vec<CacheStep>, wrapped: bool)
    ensures
        final(disk)@ == cache_run(old(disk)@, cache_steps_view(steps@), wrapped),
{
    let mut i: usize = 0;
    while i < steps.len()
        invariant
            i <= steps.len(),
            disk@ == cache_run(old(disk)@, cache_steps_view(steps@).take(i as int), wrapped),
        decreases steps.len() - i,
    {
        replay_step(disk, &steps[i], wrapped);
        proof {
            let done = cache_steps_view(steps@).take(i + 1);
            assert(done.drop_last() == cache_steps_view(steps@).take(i as int));
            assert(done.last() == steps[i as int]@);
        }
        i = i + 1;
    }
    assert(cache_steps_view(steps@).take(i as int) == cache_steps_view(steps@));
}

} // verus!
