//! The commands of the package manager, and what `add` decides: which
//! packages are asked for, and what is recorded of one that was installed.

use crate::entry::{parse_package_entry, spec_parse_package_entry, SpecError};
use crate::lockfile::{
    spec_update_lockfile, update_lockfile, Lockfile, LockfileError, PackageInfo, PackageInfoView,
};
use crate::package::{pairs_view, NPMPackage, Package, PackageView, Registry};
use vstd::prelude::*;

verus! {

/// A command of the package manager.
#[derive(Debug)]
pub enum Commands {
    /// Add packages to a project.
    Add { packages: Vec<String>, registry: Option<Registry> },
    /// Remove packages from a project.
    Remove { packages: Vec<String> },
    /// Install all the packages of a project.
    Install,
}

/// The command line, parsed.
#[derive(Debug)]
pub struct QipiCLI {
    pub cmds: Option<Commands>,
}

/// The specifiers that a command asks to add, with the registry to ask: an
/// `add` names them, and NPM where it names no registry; any other command
/// adds nothing.
pub open spec fn requested(cli: QipiCLI) -> (Seq<String>, Registry) {
    match cli.cmds {
        Some(Commands::Add { packages, registry }) => (
            packages@,
            match registry {
                Some(r) => r,
                None => Registry::NPM,
            },
        ),
        _ => (Seq::empty(), Registry::NPM),
    }
}

/// The index of the first specifier at or after `from` that is no package
/// specifier, or the length of the list where all are.
pub open spec fn first_invalid(specs: Seq<String>, from: int) -> int
    decreases specs.len() - from,
{
    if from < 0 || from >= specs.len() {
        specs.len() as int
    } else if spec_parse_package_entry(specs[from]@) is None {
        from
    } else {
        first_invalid(specs, from + 1)
    }
}

/// The package that a specifier asks for at a registry.
pub open spec fn spec_request(spec: Seq<char>, registry: Registry) -> PackageView {
    let p = spec_parse_package_entry(spec)->Some_0;
    PackageView { author: p.author, name: p.name, version: p.version, registry }
}

/// The packages that a command asks to add, in the order given, each parsed
/// from its specifier and bound to the command's registry. The first
/// specifier that is malformed is refused, and with it the whole command.
pub fn init(cli: &QipiCLI) -> (r: Result<Vec<Package>, SpecError>)
    ensures
        ({
            let (specs, registry) = requested(*cli);
            let bad = first_invalid(specs, 0);
            if bad == specs.len() {
                &&& r is Ok
                &&& r->Ok_0@.len() == specs.len()
                &&& forall|i: int|
                    0 <= i < specs.len() ==> (#[trigger] r->Ok_0@[i])@ == spec_request(
                        specs[i]@,
                        registry,
                    )
            } else {
                &&& 0 <= bad < specs.len()
                &&& r matches Err(SpecError::InvalidSpecFormat(t)) && t@ == specs[bad]@
            }
        }),
{
    let mut out: Vec<Package> = Vec::new();
    match &cli.cmds {
        Some(Commands::Add { packages, registry }) => {
            let chosen = match registry {
                Some(r) => *r,
                None => Registry::NPM,
            };
            let mut i: usize = 0;
            while i < packages.len()
                invariant
                    i <= packages.len(),
                    out@.len() == i,
                    requested(*cli) == (packages@, chosen),
                    first_invalid(packages@, 0) == first_invalid(packages@, i as int),
                    forall|j: int|
                        0 <= j < i ==> (#[trigger] out@[j])@ == spec_request(packages@[j]@, chosen),
                decreases packages.len() - i,
            {
                match parse_package_entry(packages[i].as_str()) {
                    Ok(parsed) => {
                        let mut package = parsed;
                        package.registry = chosen;
                        out.push(package);
                    },
                    Err(e) => {
                        assert(spec_parse_package_entry(packages@[i as int]@) is None);
                        assert(first_invalid(packages@, i as int) == i);
                        return Err(e);
                    },
                }
                i = i + 1;
            }
            Ok(out)
        },
        _ => Ok(out),
    }
}

/// What the lockfile records of a resolved package: its version, where its
/// tarball lies, its integrity digest, and the names of its dependencies.
pub open spec fn spec_package_info(package: NPMPackage) -> PackageInfoView {
    PackageInfoView {
        version: package.version@,
        resolved: package.dist.tarball@,
        integrity: package.dist.integrity@,
        dependencies: match package.dependencies {
            Some(d) => Seq::new(d@.len(), |i: int| d@[i].0@),
            None => Seq::empty(),
        },
    }
}

/// The dependencies that a resolved package declares, each a name and a
/// range token; none where it declares none.
pub fn dependency_list(package: &NPMPackage) -> (r: Vec<(String, String)>)
    ensures
        pairs_view(r@) == match package.dependencies {
            Some(d) => pairs_view(d@),
            None => Seq::empty(),
        },
{
    let mut r: Vec<(String, String)> = Vec::new();
    match &package.dependencies {
        Some(d) => {
            let mut i: usize = 0;
            while i < d.len()
                invariant
                    i <= d.len(),
                    r@.len() == i,
                    forall|j: int|
                        0 <= j < i ==> (#[trigger] r@[j]).0@ == d@[j].0@ && r@[j].1@ == d@[j].1@,
                decreases d.len() - i,
            {
                r.push((d[i].0.clone(), d[i].1.clone()));
                i = i + 1;
            }
            assert(pairs_view(r@) =~= pairs_view(d@));
        },
        None => {
            assert(pairs_view(r@) =~= Seq::empty());
        },
    }
    r
}

/// The lockfile record of a resolved package.
pub fn package_info(package: &NPMPackage) -> (r: PackageInfo)
    ensures
        r@ == spec_package_info(*package),
{
    let mut names: Vec<String> = Vec::new();
    match &package.dependencies {
        Some(d) => {
            let mut i: usize = 0;
            while i < d.len()
                invariant
                    i <= d.len(),
                    names@.len() == i,
                    forall|j: int| 0 <= j < i ==> (#[trigger] names@[j])@ == d@[j].0@,
                decreases d.len() - i,
            {
                names.push(d[i].0.clone());
                i = i + 1;
            }
        },
        None => {},
    }
    let r = PackageInfo {
        version: package.version.clone(),
        resolved: package.dist.tarball.clone(),
        integrity: package.dist.integrity.clone(),
        dependencies: names,
    };
    assert(r@.dependencies =~= spec_package_info(*package).dependencies);
    r
}

/// The lockfile to write once a package is installed: none where the
/// lockfile that was loaded records the package's name already, and else
/// what was loaded with the package's record merged in.
pub fn record_install(loaded: Result<Lockfile, LockfileError>, package: &NPMPackage) -> (r: Option<
    Lockfile,
>)
    ensures
        match loaded {
            Ok(l) if l@.dependencies.contains_key(package.name@) => r is None,
            Ok(l) => r is Some && r->Some_0@ == spec_update_lockfile(
                Some(l@),
                package.name@,
                spec_package_info(*package),
            ),
            Err(_) => r is Some && r->Some_0@ == spec_update_lockfile(
                None,
                package.name@,
                spec_package_info(*package),
            ),
        },
{
    let recorded = match &loaded {
        Ok(l) => l.contains_key(package.name.as_str()),
        Err(_) => false,
    };
    if recorded {
        None
    } else {
        Some(update_lockfile(loaded, package.name.as_str(), package_info(package)))
    }
}

} // verus!
