//! The lockfile: the durable record of what is installed, by package name.

use crate::text::{join2, same};
use vstd::prelude::*;

verus! {

/// The schema version that every written lockfile is stamped with.
pub const LOCKFILE_VERSION: &'static str = "1.0.0";

/// The comment that every written lockfile begins with.
pub const LOCKFILE_HEADER: &'static str =
    "# This (lock)file is automatically generated by Qipi. DO NOT EDIT.\n\n";

/// Why the lockfile could not be loaded.
#[derive(Clone, Copy, Debug, PartialEq, Eq, Structural)]
pub enum LockfileError {
    /// The project has no lockfile.
    NotFound,
    /// The lockfile's content is no lockfile.
    Parse,
}

/// What was installed under one package name.
#[derive(Debug, PartialEq, Eq)]
pub struct PackageInfo {
    pub version: String,
    /// The address of the tarball.
    pub resolved: String,
    pub integrity: String,
    /// The names of the package's dependencies, without their versions.
    pub dependencies: Vec<String>,
}

/// A `PackageInfo` as plain values.
pub struct PackageInfoView {
    pub version: Seq<char>,
    pub resolved: Seq<char>,
    pub integrity: Seq<char>,
    pub dependencies: Seq<Seq<char>>,
}

impl View for PackageInfo {
    type V = PackageInfoView;

    open spec fn view(&self) -> PackageInfoView {
        PackageInfoView {
            version: self.version@,
            resolved: self.resolved@,
            integrity: self.integrity@,
            dependencies: Seq::new(self.dependencies@.len(), |i: int| self.dependencies@[i]@),
        }
    }
}

impl PackageInfo {
    /// A copy of the record.
    pub fn duplicate(&self) -> (r: PackageInfo)
        ensures
            r@ == self@,
    {
        let mut dependencies: Vec<String> = Vec::new();
        let mut i: usize = 0;
        while i < self.dependencies.len()
            invariant
                i <= self.dependencies.len(),
                dependencies@.len() == i,
                forall|j: int| 0 <= j < i ==> dependencies@[j]@ == self.dependencies@[j]@,
            decreases self.dependencies.len() - i,
        {
            dependencies.push(self.dependencies[i].clone());
            i = i + 1;
        }
        let r = PackageInfo {
            version: self.version.clone(),
            resolved: self.resolved.clone(),
            integrity: self.integrity.clone(),
            dependencies,
        };
        assert(r@.dependencies =~= self@.dependencies);
        r
    }
}

/// A list of lockfile entries as plain values.
pub open spec fn entries_view(v: Seq<(String, PackageInfo)>) -> Seq<(Seq<char>, PackageInfoView)> {
    Seq::new(v.len(), |i: int| (v[i].0@, v[i].1@))
}

/// The map that a list of entries describes; a later entry replaces an
/// earlier one of the same name.
pub open spec fn map_of(s: Seq<(Seq<char>, PackageInfoView)>) -> Map<Seq<char>, PackageInfoView>
    decreases s.len(),
{
    if s.len() == 0 {
        Map::empty()
    } else {
        map_of(s.drop_last()).insert(s.last().0, s.last().1)
    }
}

/// No name occurs twice in the list.
pub open spec fn distinct_names(s: Seq<(Seq<char>, PackageInfoView)>) -> bool {
    forall|i: int, j: int| 0 <= i < j < s.len() ==> (#[trigger] s[i]).0 != (#[trigger] s[j]).0
}

/// Every name of the list is a key of its map.
pub proof fn lemma_listed_is_key(s: Seq<(Seq<char>, PackageInfoView)>, i: int)
    requires
        0 <= i < s.len(),
    ensures
        map_of(s).contains_key(s[i].0),
    decreases s.len(),
{
    if i < s.len() - 1 {
        lemma_listed_is_key(s.drop_last(), i);
    }
}

/// A name that the list does not hold is no key of its map.
pub proof fn lemma_unlisted_is_no_key(s: Seq<(Seq<char>, PackageInfoView)>, name: Seq<char>)
    requires
        forall|i: int| 0 <= i < s.len() ==> (#[trigger] s[i]).0 != name,
    ensures
        !map_of(s).contains_key(name),
    decreases s.len(),
{
    if s.len() > 0 {
        let front = s.drop_last();
        assert forall|i: int| 0 <= i < front.len() implies (#[trigger] front[i]).0 != name by {
            assert(front[i] == s[i]);
        }
        lemma_unlisted_is_no_key(front, name);
        assert(s[s.len() - 1].0 != name);
    }
}

/// Where no name occurs twice, the map holds under each name the record
/// listed with it.
pub proof fn lemma_listed_value(s: Seq<(Seq<char>, PackageInfoView)>, i: int)
    requires
        distinct_names(s),
        0 <= i < s.len(),
    ensures
        map_of(s).contains_key(s[i].0),
        map_of(s)[s[i].0] == s[i].1,
    decreases s.len(),
{
    lemma_listed_is_key(s, i);
    if i < s.len() - 1 {
        let front = s.drop_last();
        assert(front[i] == s[i]);
        assert(distinct_names(front)) by {
            assert forall|a: int, b: int| 0 <= a < b < front.len() implies (#[trigger] front[a]).0
                != (#[trigger] front[b]).0 by {
                assert(front[a] == s[a] && front[b] == s[b]);
            }
        }
        lemma_listed_value(front, i);
        assert(s[i].0 != s[s.len() - 1].0);
    }
}

/// Where no name occurs twice, putting another record in the place of one
/// entry is an insertion into the map, and still no name occurs twice.
pub proof fn lemma_replaced_entry(
    s: Seq<(Seq<char>, PackageInfoView)>,
    i: int,
    info: PackageInfoView,
)
    requires
        distinct_names(s),
        0 <= i < s.len(),
    ensures
        map_of(s.update(i, (s[i].0, info))) == map_of(s).insert(s[i].0, info),
        distinct_names(s.update(i, (s[i].0, info))),
    decreases s.len(),
{
    let t = s.update(i, (s[i].0, info));
    assert(distinct_names(t)) by {
        assert forall|a: int, b: int| 0 <= a < b < t.len() implies (#[trigger] t[a]).0 != (
        #[trigger] t[b]).0 by {
            assert(t[a].0 == s[a].0 && t[b].0 == s[b].0);
        }
    }
    let front = s.drop_last();
    if i == s.len() - 1 {
        assert(t.drop_last() =~= front);
        assert(map_of(t) =~= map_of(s).insert(s[i].0, info));
    } else {
        assert(distinct_names(front)) by {
            assert forall|a: int, b: int| 0 <= a < b < front.len() implies (#[trigger] front[a]).0
                != (#[trigger] front[b]).0 by {
                assert(front[a] == s[a] && front[b] == s[b]);
            }
        }
        assert(front[i] == s[i]);
        lemma_replaced_entry(front, i, info);
        assert(t.drop_last() =~= front.update(i, (s[i].0, info)));
        assert(t.last() == s.last());
        assert(s[i].0 != s[s.len() - 1].0);
        assert(map_of(t) =~= map_of(s).insert(s[i].0, info));
    }
}

/// Where no name occurs twice, the map has as many keys as the list has
/// entries.
pub proof fn lemma_one_key_per_entry(s: Seq<(Seq<char>, PackageInfoView)>)
    requires
        distinct_names(s),
    ensures
        map_of(s).dom().finite(),
        map_of(s).dom().len() == s.len(),
    decreases s.len(),
{
    if s.len() > 0 {
        let front = s.drop_last();
        assert(distinct_names(front)) by {
            assert forall|a: int, b: int| 0 <= a < b < front.len() implies (#[trigger] front[a]).0
                != (#[trigger] front[b]).0 by {
                assert(front[a] == s[a] && front[b] == s[b]);
            }
        }
        lemma_one_key_per_entry(front);
        assert forall|i: int| 0 <= i < front.len() implies (#[trigger] front[i]).0
            != s.last().0 by {
            assert(front[i] == s[i]);
        }
        lemma_unlisted_is_no_key(front, s.last().0);
        assert(map_of(s).dom() =~= map_of(front).dom().insert(s.last().0));
    }
}

/// What is installed in a project: a schema version, and one record per
/// package name.
#[derive(Debug)]
pub struct Lockfile {
    lockfile_version: String,
    entries: Vec<(String, PackageInfo)>,
}

/// A `Lockfile` as plain values.
pub struct LockfileView {
    pub lockfile_version: Seq<char>,
    pub dependencies: Map<Seq<char>, PackageInfoView>,
}

impl View for Lockfile {
    type V = LockfileView;

    closed spec fn view(&self) -> LockfileView {
        LockfileView {
            lockfile_version: self.lockfile_version@,
            dependencies: map_of(entries_view(self.entries@)),
        }
    }
}

impl Default for Lockfile {
    fn default() -> (r: Lockfile)
        ensures
            r@.lockfile_version == LOCKFILE_VERSION@,
            r@.dependencies == Map::<Seq<char>, PackageInfoView>::empty(),
    {
        Lockfile::new()
    }
}

impl Lockfile {
    #[verifier::type_invariant]
    spec fn names_are_distinct(self) -> bool {
        distinct_names(entries_view(self.entries@))
    }

    /// A lockfile of the current schema version with no record.
    pub fn new() -> (r: Lockfile)
        ensures
            r@.lockfile_version == LOCKFILE_VERSION@,
            r@.dependencies == Map::<Seq<char>, PackageInfoView>::empty(),
    {
        Lockfile { lockfile_version: String::from_str(LOCKFILE_VERSION), entries: Vec::new() }
    }

    /// A lockfile of the given records, or `Parse` if two of them have the
    /// same name.
    pub fn from_entries(lockfile_version: String, entries: Vec<(String, PackageInfo)>) -> (r:
        Result<Lockfile, LockfileError>)
        ensures
            distinct_names(entries_view(entries@)) ==> r is Ok && r->Ok_0@ == (LockfileView {
                lockfile_version: lockfile_version@,
                dependencies: map_of(entries_view(entries@)),
            }),
            !distinct_names(entries_view(entries@)) ==> r == Err::<Lockfile, LockfileError>(
                LockfileError::Parse,
            ),
    {
        let ghost names = entries_view(entries@);
        let mut j: usize = 0;
        while j < entries.len()
            invariant
                j <= entries.len(),
                names == entries_view(entries@),
                forall|a: int, b: int|
                    0 <= a < b < j ==> (#[trigger] names[a]).0 != (#[trigger] names[b]).0,
            decreases entries.len() - j,
        {
            let mut i: usize = 0;
            while i < j
                invariant
                    i <= j < entries.len(),
                    names == entries_view(entries@),
                    forall|a: int| 0 <= a < i ==> (#[trigger] names[a]).0 != names[j as int].0,
                decreases j - i,
            {
                if same(entries[i].0.as_str(), entries[j].0.as_str()) {
                    assert(names[i as int].0 == names[j as int].0);
                    return Err(LockfileError::Parse);
                }
                i = i + 1;
            }
            j = j + 1;
        }
        Ok(Lockfile { lockfile_version, entries })
    }

    /// The schema version.
    pub fn lockfile_version(&self) -> (r: &String)
        ensures
            r@ == self@.lockfile_version,
    {
        &self.lockfile_version
    }

    /// The records, each name once.
    pub fn entries(&self) -> (r: &Vec<(String, PackageInfo)>)
        ensures
            distinct_names(entries_view(r@)),
            map_of(entries_view(r@)) == self@.dependencies,
            r@.len() == self@.dependencies.dom().len(),
    {
        proof {
            use_type_invariant(self);
            lemma_one_key_per_entry(entries_view(self.entries@));
        }
        &self.entries
    }

    /// How many packages are recorded.
    pub fn len(&self) -> (r: usize)
        ensures
            self@.dependencies.dom().finite(),
            r == self@.dependencies.dom().len(),
    {
        proof {
            use_type_invariant(self);
            lemma_one_key_per_entry(entries_view(self.entries@));
        }
        self.entries.len()
    }

    fn position(&self, name: &str) -> (r: Option<usize>)
        ensures
            match r {
                Some(i) => i < self.entries@.len() && self.entries@[i as int].0@ == name@,
                None => forall|i: int|
                    0 <= i < self.entries@.len() ==> (#[trigger] entries_view(
                        self.entries@,
                    )[i]).0 != name@,
            },
    {
        let mut i: usize = 0;
        while i < self.entries.len()
            invariant
                i <= self.entries.len(),
                forall|j: int|
                    0 <= j < i ==> (#[trigger] entries_view(self.entries@)[j]).0 != name@,
            decreases self.entries.len() - i,
        {
            if same(self.entries[i].0.as_str(), name) {
                return Some(i);
            }
            i = i + 1;
        }
        None
    }

    /// Whether a package is recorded under `name`.
    pub fn contains_key(&self, name: &str) -> (r: bool)
        ensures
            r == self@.dependencies.contains_key(name@),
    {
        self.get(name).is_some()
    }

    /// The record under `name`, if there is one.
    pub fn get(&self, name: &str) -> (r: Option<&PackageInfo>)
        ensures
            r is Some == self@.dependencies.contains_key(name@),
            r is Some ==> r->Some_0@ == self@.dependencies[name@],
    {
        let ghost s = entries_view(self.entries@);
        match self.position(name) {
            Some(i) => {
                proof {
                    use_type_invariant(self);
                    lemma_listed_value(s, i as int);
                }
                Some(&self.entries[i].1)
            },
            None => {
                proof {
                    lemma_unlisted_is_no_key(s, name@);
                }
                None
            },
        }
    }

    /// Records `info` under `name`, in place of the record that was there.
    pub fn insert(&mut self, name: &str, info: PackageInfo)
        ensures
            final(self)@.lockfile_version == old(self)@.lockfile_version,
            final(self)@.dependencies == old(self)@.dependencies.insert(name@, info@),
    {
        let ghost s = entries_view(self.entries@);
        proof {
            use_type_invariant(&*self);
        }
        match self.position(name) {
            Some(i) => {
                proof {
                    lemma_replaced_entry(s, i as int, info@);
                }
                let ghost replaced = s.update(i as int, (name@, info@));
                let mut entries: Vec<(String, PackageInfo)> = Vec::new();
                std::mem::swap(&mut entries, &mut self.entries);
                entries.set(i, (String::from_str(name), info));
                assert(entries_view(entries@) =~= replaced);
                self.entries = entries;
            },
            None => {
                let ghost pushed = s.push((name@, info@));
                assert(pushed.drop_last() =~= s);
                assert(distinct_names(pushed)) by {
                    assert forall|a: int, b: int| 0 <= a < b < pushed.len() implies (
                    #[trigger] pushed[a]).0 != (#[trigger] pushed[b]).0 by {
                        assert(pushed[a] == s[a]);
                        if b < s.len() {
                            assert(pushed[b] == s[b]);
                        }
                    }
                }
                let mut entries: Vec<(String, PackageInfo)> = Vec::new();
                std::mem::swap(&mut entries, &mut self.entries);
                entries.push((String::from_str(name), info));
                assert(entries_view(entries@) =~= pushed);
                self.entries = entries;
            },
        }
    }
}

/// The path of the lockfile of the project at `destination`.
pub open spec fn lockfile_path(destination: Seq<char>) -> Seq<char> {
    destination + "/qipi.toml"@
}

/// A lockfile ready to be written.
#[derive(Debug)]
pub struct LockfileWrite {
    /// Where to write it.
    pub path: String,
    /// What to write, in place of what the file held.
    pub content: String,
}

/// Frames a serialized lockfile for the project at `destination`: the
/// content is the header comment followed by `toml_string`.
pub fn generate_lockfile(destination: &str, toml_string: &str) -> (r: LockfileWrite)
    ensures
        r.path@ == lockfile_path(destination@),
        r.content@ == LOCKFILE_HEADER@ + toml_string@,
{
    LockfileWrite {
        path: join2(destination, "/qipi.toml"),
        content: join2(LOCKFILE_HEADER, toml_string),
    }
}

/// What was found where the lockfile should be.
#[derive(Debug)]
pub enum LockfileSource {
    /// No file.
    Missing,
    /// A file whose content could not be read as a lockfile.
    Malformed,
    /// A file that holds this schema version and these records.
    Parsed { lockfile_version: String, dependencies: Vec<(String, PackageInfo)> },
}

/// The lockfile that a list of records stands for, if no name occurs twice
/// in it.
pub open spec fn spec_lockfile(
    lockfile_version: Seq<char>,
    entries: Seq<(Seq<char>, PackageInfoView)>,
) -> Result<LockfileView, LockfileError> {
    if distinct_names(entries) {
        Ok(LockfileView { lockfile_version, dependencies: map_of(entries) })
    } else {
        Err(LockfileError::Parse)
    }
}

/// Loads the lockfile from what was found: `NotFound` without a file,
/// `Parse` for a file that is no lockfile or names a package twice, and the
/// lockfile with the file's records otherwise.
pub fn load_lockfile(source: LockfileSource) -> (r: Result<Lockfile, LockfileError>)
    ensures
        match source {
            LockfileSource::Missing => r == Err::<Lockfile, LockfileError>(LockfileError::NotFound),
            LockfileSource::Malformed => r == Err::<Lockfile, LockfileError>(LockfileError::Parse),
            LockfileSource::Parsed { lockfile_version, dependencies } => match spec_lockfile(
                lockfile_version@,
                entries_view(dependencies@),
            ) {
                Ok(l) => r is Ok && r->Ok_0@ == l,
                Err(e) => r == Err::<Lockfile, LockfileError>(e),
            },
        },
{
    match source {
        LockfileSource::Missing => Err(LockfileError::NotFound),
        LockfileSource::Malformed => Err(LockfileError::Parse),
        LockfileSource::Parsed { lockfile_version, dependencies } => Lockfile::from_entries(
            lockfile_version,
            dependencies,
        ),
    }
}

/// The lockfile to write after `info` was installed under `name`: the
/// records that were loaded, or none where loading failed, with `info`
/// under `name` in place of what was there, stamped with the current schema
/// version.
pub open spec fn spec_update_lockfile(
    loaded: Option<LockfileView>,
    name: Seq<char>,
    info: PackageInfoView,
) -> LockfileView {
    let before = match loaded {
        Some(l) => l.dependencies,
        None => Map::empty(),
    };
    LockfileView { lockfile_version: LOCKFILE_VERSION@, dependencies: before.insert(name, info) }
}

/// Merges one installed package into the lockfile that was loaded.
pub fn update_lockfile(
    loaded: Result<Lockfile, LockfileError>,
    package_name: &str,
    package_info: PackageInfo,
) -> (r: Lockfile)
    ensures
        r@ == spec_update_lockfile(
            match loaded {
                Ok(l) => Some(l@),
                Err(_) => None,
            },
            package_name@,
            package_info@,
        ),
{
    let mut lockfile = match loaded {
        Ok(l) => l,
        Err(_) => Lockfile::new(),
    };
    lockfile.insert(package_name, package_info);
    proof {
        use_type_invariant(&lockfile);
    }
    lockfile.lockfile_version = String::from_str(LOCKFILE_VERSION);
    lockfile
}

/// After an update the lockfile holds the record under its name and every
/// other record as before; a second update under the same name replaces the
/// first and adds no record; and what is written loads as it was written:
/// the records of a lockfile, each name once, stand for that lockfile.
pub proof fn lemma_update_then_load(
    loaded: Option<LockfileView>,
    name: Seq<char>,
    first: PackageInfoView,
    second: PackageInfoView,
    written: Seq<(Seq<char>, PackageInfoView)>,
)
    requires
        distinct_names(written),
        map_of(written) == spec_update_lockfile(loaded, name, first).dependencies,
    ensures
        spec_update_lockfile(loaded, name, first).dependencies.contains_key(name),
        spec_update_lockfile(loaded, name, first).dependencies[name] == first,
        forall|other: Seq<char>|
            other != name && loaded is Some ==> (#[trigger] spec_update_lockfile(
                loaded,
                name,
                first,
            ).dependencies.contains_key(other) == loaded->Some_0.dependencies.contains_key(other))
                && (loaded->Some_0.dependencies.contains_key(other) ==> spec_update_lockfile(
                loaded,
                name,
                first,
            ).dependencies[other] == loaded->Some_0.dependencies[other]),
        spec_update_lockfile(Some(spec_update_lockfile(loaded, name, first)), name, second)
            == spec_update_lockfile(loaded, name, second),
        spec_update_lockfile(
            Some(spec_update_lockfile(loaded, name, first)),
            name,
            second,
        ).dependencies.dom() == spec_update_lockfile(loaded, name, first).dependencies.dom(),
        spec_lockfile(LOCKFILE_VERSION@, written) == Ok::<LockfileView, LockfileError>(
            spec_update_lockfile(loaded, name, first),
        ),
{
    let once = spec_update_lockfile(loaded, name, first);
    let twice = spec_update_lockfile(Some(once), name, second);
    assert(twice.dependencies =~= spec_update_lockfile(loaded, name, second).dependencies);
    assert(twice.dependencies.dom() =~= once.dependencies.dom());
}

} // verus!
