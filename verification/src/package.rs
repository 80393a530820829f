//! Package references, the registries they are resolved against, and the
//! metadata a registry answers with.

use crate::text::{join2, join3, same};
use vstd::prelude::*;

verus! {

/// A registry that package metadata and tarballs are fetched from.
#[derive(Clone, Copy, Debug, PartialEq, Eq, Structural)]
pub enum Registry {
    NPM,
    JSR,
}

impl Default for Registry {
    fn default() -> (r: Registry)
        ensures
            r == Registry::NPM,
    {
        Registry::NPM
    }
}

impl From<&str> for Registry {
    fn from(registry: &str) -> (r: Registry) {
        if same(registry, "jsr") {
            Registry::JSR
        } else {
            Registry::NPM
        }
    }
}

impl vstd::std_specs::convert::FromSpecImpl<&str> for Registry {
    open spec fn obeys_from_spec() -> bool {
        true
    }

    /// `"jsr"` names JSR; every other word, `"npm"` among them, names NPM.
    open spec fn from_spec(registry: &str) -> Registry {
        if registry@ == "jsr"@ {
            Registry::JSR
        } else {
            Registry::NPM
        }
    }
}

/// Why a registry could not be asked.
#[derive(Clone, Copy, Debug, PartialEq, Eq, Structural)]
pub enum RegistryError {
    /// No client exists for this registry.
    UnsupportedRegistry,
}

/// A package as the user or a dependency list names it.
#[derive(Debug)]
pub struct Package {
    /// The scope, with its leading `@`, or empty for an unscoped package.
    pub author: String,
    pub name: String,
    /// A range token as written, or an exact version.
    pub version: String,
    pub registry: Registry,
}

/// What a `Package` holds, as plain sequences.
pub struct PackageView {
    pub author: Seq<char>,
    pub name: Seq<char>,
    pub version: Seq<char>,
    pub registry: Registry,
}

impl View for Package {
    type V = PackageView;

    open spec fn view(&self) -> PackageView {
        PackageView {
            author: self.author@,
            name: self.name@,
            version: self.version@,
            registry: self.registry,
        }
    }
}

/// The name a package is known by in a registry, in the cache and in
/// `node_modules`: the bare name, or scope, `/` and name.
pub open spec fn scoped_name(author: Seq<char>, name: Seq<char>) -> Seq<char> {
    if author.len() == 0 {
        name
    } else {
        author + "/"@ + name
    }
}

/// The address of the NPM registry's metadata for one version of a package.
pub open spec fn npm_url(scoped: Seq<char>, version: Seq<char>) -> Seq<char> {
    "https://registry.npmjs.org/"@ + scoped + "/"@ + version
}

impl Default for Package {
    fn default() -> (r: Package)
        ensures
            r@ == (PackageView {
                author: Seq::empty(),
                name: Seq::empty(),
                version: Seq::empty(),
                registry: Registry::NPM,
            }),
    {
        Package {
            author: String::new(),
            name: String::new(),
            version: String::new(),
            registry: Registry::NPM,
        }
    }
}

impl Package {
    /// The package's scoped name.
    pub fn scoped_name(&self) -> (r: String)
        ensures
            r@ == scoped_name(self.author@, self.name@),
    {
        if self.author.as_str().unicode_len() == 0 {
            self.name.clone()
        } else {
            join3(self.author.as_str(), "/", self.name.as_str())
        }
    }

    /// Where this package's metadata is fetched from: the NPM address of its
    /// scoped name and version, and `UnsupportedRegistry` for every package
    /// of a registry without a client.
    pub fn metadata_url(&self) -> (r: Result<String, RegistryError>)
        ensures
            self.registry == Registry::NPM ==> r is Ok && r->Ok_0@ == npm_url(
                scoped_name(self.author@, self.name@),
                self.version@,
            ),
            self.registry == Registry::JSR ==> r == Err::<String, RegistryError>(
                RegistryError::UnsupportedRegistry,
            ),
    {
        match self.registry {
            Registry::NPM => {
                let name = self.scoped_name();
                let base = join2("https://registry.npmjs.org/", name.as_str());
                Ok(join3(base.as_str(), "/", self.version.as_str()))
            },
            Registry::JSR => Err(RegistryError::UnsupportedRegistry),
        }
    }
}

/// Where a package's tarball lies and what it must hash to.
#[derive(Debug)]
pub struct Dist {
    pub tarball: String,
    pub integrity: String,
    pub shasum: String,
}

/// The registry's answer for one version of a package.
#[allow(non_snake_case)]
#[derive(Debug)]
pub struct NPMPackage {
    pub name: String,
    /// The exact version.
    pub version: String,
    pub description: Option<String>,
    pub dist: Dist,
    /// Dependency names with their range tokens, each name once.
    pub dependencies: Option<Vec<(String, String)>>,
    pub devDependencies: Option<Vec<(String, String)>>,
    pub peerDependencies: Option<Vec<(String, String)>>,
}

/// A list of dependency names and range tokens, as plain sequences.
pub open spec fn pairs_view(v: Seq<(String, String)>) -> Seq<(Seq<char>, Seq<char>)> {
    Seq::new(v.len(), |i: int| (v[i].0@, v[i].1@))
}

} // verus!
