use qipi::cache::{ensure_cached, get_package_cache_path, has_tarball_in_cache, replay, CacheStep};
use qipi::cli::{dependency_list, init, package_info, record_install, Commands, QipiCLI};
use qipi::config::Config;
use qipi::disk::{Disk, Node};
use qipi::entry::SpecError;
use qipi::link::{link_dependency, link_package, LinkState};
use qipi::lockfile::{load_lockfile, Lockfile, LockfileError, LockfileSource, PackageInfo};
use qipi::package::{Dist, NPMPackage, Package, Registry, RegistryError};

fn add(packages: &[&str], registry: Option<Registry>) -> QipiCLI {
    QipiCLI {
        cmds: Some(Commands::Add {
            packages: packages.iter().map(|p| p.to_string()).collect(),
            registry,
        }),
    }
}

fn left_pad() -> NPMPackage {
    NPMPackage {
        name: "left-pad".to_string(),
        version: "1.3.0".to_string(),
        description: None,
        dist: Dist {
            tarball: "http://x/left-pad-1.3.0.tgz".to_string(),
            integrity: "sha512-abc".to_string(),
            shasum: String::new(),
        },
        dependencies: Some(Vec::new()),
        devDependencies: None,
        peerDependencies: None,
    }
}

#[test]
fn add_names_its_packages() {
    let packages = init(&add(&["left-pad@1.3.0", "@s/p"], None)).unwrap();
    assert_eq!(packages.len(), 2);
    assert_eq!(packages[0].author, "");
    assert_eq!(packages[0].name, "left-pad");
    assert_eq!(packages[0].version, "1.3.0");
    assert_eq!(packages[0].registry, Registry::NPM);
    assert_eq!(packages[1].author, "@s");
    assert_eq!(packages[1].name, "p");
    assert_eq!(packages[1].version, "latest");
}

#[test]
fn add_binds_the_registry() {
    let packages = init(&add(&["a", "b@2"], Some(Registry::JSR))).unwrap();
    assert_eq!(packages[0].registry, Registry::JSR);
    assert_eq!(packages[1].registry, Registry::JSR);
}

#[test]
fn add_refuses_the_first_malformed_spec() {
    match init(&add(&["a", "@bad", "b@", "c"], None)) {
        Err(SpecError::InvalidSpecFormat(spec)) => assert_eq!(spec, "@bad"),
        Ok(_) => panic!("accepted"),
    }
}

#[test]
fn other_commands_add_nothing() {
    assert!(init(&QipiCLI { cmds: None }).unwrap().is_empty());
    assert!(init(&QipiCLI { cmds: Some(Commands::Install) }).unwrap().is_empty());
    let remove = Commands::Remove { packages: vec!["@bad".to_string()] };
    assert!(init(&QipiCLI { cmds: Some(remove) }).unwrap().is_empty());
    assert!(init(&add(&[], None)).unwrap().is_empty());
}

#[test]
fn registry_by_name() {
    assert_eq!(Registry::from("npm"), Registry::NPM);
    assert_eq!(Registry::from("jsr"), Registry::JSR);
    assert_eq!(Registry::from("JSR"), Registry::NPM);
    assert_eq!(Registry::from(""), Registry::NPM);
    assert_eq!(Registry::default(), Registry::NPM);
}

#[test]
fn default_package_is_empty() {
    let package = Package::default();
    assert_eq!(package.author, "");
    assert_eq!(package.name, "");
    assert_eq!(package.version, "");
    assert_eq!(package.registry, Registry::NPM);
}

#[test]
fn metadata_address() {
    let plain = Package {
        author: String::new(),
        name: "left-pad".to_string(),
        version: "1.3.0".to_string(),
        registry: Registry::NPM,
    };
    assert_eq!(plain.scoped_name(), "left-pad");
    assert_eq!(plain.metadata_url().unwrap(), "https://registry.npmjs.org/left-pad/1.3.0");
    let scoped = Package {
        author: "@s".to_string(),
        name: "p".to_string(),
        version: "latest".to_string(),
        registry: Registry::NPM,
    };
    assert_eq!(scoped.scoped_name(), "@s/p");
    assert_eq!(scoped.metadata_url().unwrap(), "https://registry.npmjs.org/@s/p/latest");
}

#[test]
fn registry_without_client_is_refused() {
    let package = Package {
        author: String::new(),
        name: "a".to_string(),
        version: "1".to_string(),
        registry: Registry::JSR,
    };
    assert_eq!(package.metadata_url().unwrap_err(), RegistryError::UnsupportedRegistry);
}

#[test]
fn record_keeps_names_without_versions() {
    let mut package = left_pad();
    package.dependencies =
        Some(vec![("a".to_string(), "^1".to_string()), ("@s/b".to_string(), "2".to_string())]);
    assert_eq!(
        dependency_list(&package),
        vec![("a".to_string(), "^1".to_string()), ("@s/b".to_string(), "2".to_string())]
    );
    assert_eq!(
        package_info(&package),
        PackageInfo {
            version: "1.3.0".to_string(),
            resolved: "http://x/left-pad-1.3.0.tgz".to_string(),
            integrity: "sha512-abc".to_string(),
            dependencies: vec!["a".to_string(), "@s/b".to_string()],
        }
    );
    package.dependencies = None;
    assert!(dependency_list(&package).is_empty());
    assert!(package_info(&package).dependencies.is_empty());
}

#[test]
fn recorded_package_is_not_recorded_again() {
    let mut lockfile = Lockfile::new();
    lockfile.insert("left-pad", package_info(&left_pad()));
    assert!(record_install(Ok(lockfile), &left_pad()).is_none());
    let mut other = Lockfile::new();
    other.insert("right-pad", package_info(&left_pad()));
    let merged = record_install(Ok(other), &left_pad()).unwrap();
    assert_eq!(merged.len(), 2);
    let fresh = record_install(Err(LockfileError::NotFound), &left_pad()).unwrap();
    assert_eq!(fresh.len(), 1);
}

#[test]
fn add_left_pad_end_to_end() {
    let config = Config { cache_root: "/cache".to_string(), project_root: "/project".to_string() };
    let mut disk = Disk::new();
    let mut fetched = Vec::new();

    let requests = init(&add(&["left-pad@1.3.0"], None)).unwrap();
    assert_eq!(requests.len(), 1);
    assert_eq!(requests[0].metadata_url().unwrap(), "https://registry.npmjs.org/left-pad/1.3.0");
    let metadata = left_pad();

    let cached = has_tarball_in_cache(&disk, &config.cache_root, &metadata.name, &metadata.version);
    assert!(!cached);
    let steps = ensure_cached(cached, &config.cache_root, &metadata.name, &metadata.version);
    for step in &steps {
        if let CacheStep::Fetch = step {
            fetched.push(metadata.dist.tarball.clone());
        }
    }
    replay(&mut disk, &steps, true);
    disk.run(&link_package(&config, &metadata.name, &metadata.version));

    let mut state = LinkState::new();
    let first = state.enter(&config, &metadata.name, &metadata.version, dependency_list(&metadata));
    disk.apply(&first);
    assert!(matches!(link_dependency(&mut state, &config), Ok(None)));

    let lockfile = record_install(load_lockfile(LockfileSource::Missing), &metadata).unwrap();

    assert_eq!(fetched, vec!["http://x/left-pad-1.3.0.tgz".to_string()]);
    assert_eq!(get_package_cache_path("/cache", "left-pad", "1.3.0"), "/cache/left-pad/1.3.0");
    assert!(matches!(disk.node("/cache/left-pad/1.3.0"), Some(Node::Dir)));
    let hoisted = match disk.node("/project/node_modules/left-pad") {
        Some(Node::Link(target)) => target,
        other => panic!("{:?}", other),
    };
    assert_eq!(hoisted, "/project/node_modules/.qipi/left-pad@1.3.0/node_modules/left-pad");
    assert!(matches!(disk.node(&hoisted), Some(Node::Link(target)) if target == "/cache/left-pad/1.3.0"));
    assert_eq!(lockfile.len(), 1);
    assert_eq!(
        lockfile.get("left-pad"),
        Some(&PackageInfo {
            version: "1.3.0".to_string(),
            resolved: "http://x/left-pad-1.3.0.tgz".to_string(),
            integrity: "sha512-abc".to_string(),
            dependencies: Vec::new(),
        })
    );
}
