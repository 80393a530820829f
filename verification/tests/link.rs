use qipi::cache::{ensure_cached, has_tarball_in_cache, replay};
use qipi::config::Config;
use qipi::disk::{Disk, FsStep, Node};
use qipi::link::{
    download_and_symlink_dependency, link_dependency, link_package, side_slot, DepLink, LinkState,
    Resolution, Resolved,
};
use qipi::version::VersionError;

fn config() -> Config {
    Config { cache_root: "/c".to_string(), project_root: ".".to_string() }
}

fn shown(steps: &[FsStep]) -> Vec<String> {
    steps
        .iter()
        .map(|s| match s {
            FsStep::EnsureDir { path } => format!("dir {}", path),
            FsStep::EnsureLink { target, link } => format!("link {} -> {}", link, target),
        })
        .collect()
}

fn link_target(disk: &Disk, path: &str) -> Option<String> {
    match disk.node(path) {
        Some(Node::Link(target)) => Some(target),
        _ => None,
    }
}

fn deps(pairs: &[(&str, &str)]) -> Vec<(String, String)> {
    pairs.iter().map(|(n, v)| (n.to_string(), v.to_string())).collect()
}

/// What a stub registry declares as the dependencies of each version.
fn declared(name: &str, version: &str) -> Option<Vec<(String, String)>> {
    match (name, version) {
        ("a", "1.0.0") => Some(deps(&[("c", "~3.1")])),
        ("b", "1.0.0") => Some(deps(&[("a", "^2.0.0"), ("c", "3.1")])),
        ("c", "3.1") => Some(Vec::new()),
        _ => None,
    }
}

/// Walks the dependencies of a root on a model tree and reports what was
/// linked, in order.
fn walk(
    disk: &mut Disk,
    root: (&str, &str),
    dependencies: Vec<(String, String)>,
) -> Result<Vec<(String, String, Resolution)>, VersionError> {
    let config = config();
    let mut state = LinkState::new();
    let mut seen = Vec::new();
    let first = state.enter(&config, root.0, root.1, dependencies);
    disk.apply(&first);
    while let Some(link) = link_dependency(&mut state, &config)? {
        let cached = has_tarball_in_cache(disk, "/c", &link.name, &link.version);
        assert_eq!(cached, disk.has(&link.entry));
        replay(disk, &ensure_cached(cached, "/c", &link.name, &link.version), true);
        disk.run(&link.steps);
        seen.push((link.name.clone(), link.version.clone(), link.resolution));
        let children = declared(&link.name, &link.version);
        if let Some(step) = state.descend(&config, &link, children) {
            disk.apply(&step);
        }
    }
    Ok(seen)
}

#[test]
fn root_package_layout() {
    let steps = link_package(&config(), "left-pad", "1.3.0");
    assert_eq!(
        shown(&steps),
        vec![
            "dir ./node_modules/.qipi/left-pad@1.3.0/node_modules",
            "link ./node_modules/.qipi/left-pad@1.3.0/node_modules/left-pad -> /c/left-pad/1.3.0",
            "link ./node_modules/left-pad -> ./node_modules/.qipi/left-pad@1.3.0/node_modules/left-pad",
        ]
    );
}

#[test]
fn scoped_root_package_layout() {
    let steps = link_package(&config(), "@s/p", "2.0.0");
    assert_eq!(
        shown(&steps),
        vec![
            "dir ./node_modules/.qipi/@s/p@2.0.0/node_modules",
            "link ./node_modules/.qipi/@s/p@2.0.0/node_modules/@s/p -> /c/@s+p/2.0.0",
            "link ./node_modules/@s/p -> ./node_modules/.qipi/@s/p@2.0.0/node_modules/@s/p",
        ]
    );
}

#[test]
fn linking_a_root_twice_is_idempotent() {
    let steps = link_package(&config(), "left-pad", "1.3.0");
    let mut disk = Disk::new();
    disk.run(&steps);
    let paths = [
        "./node_modules/.qipi/left-pad@1.3.0/node_modules",
        "./node_modules/.qipi/left-pad@1.3.0/node_modules/left-pad",
        "./node_modules/left-pad",
    ];
    let once: Vec<String> = paths.iter().map(|p| format!("{:?}", disk.node(p))).collect();
    disk.run(&link_package(&config(), "left-pad", "1.3.0"));
    let twice: Vec<String> = paths.iter().map(|p| format!("{:?}", disk.node(p))).collect();
    assert_eq!(once, twice);
    assert_eq!(
        link_target(&disk, "./node_modules/left-pad"),
        Some("./node_modules/.qipi/left-pad@1.3.0/node_modules/left-pad".to_string())
    );
    assert_eq!(
        link_target(&disk, "./node_modules/.qipi/left-pad@1.3.0/node_modules/left-pad"),
        Some("/c/left-pad/1.3.0".to_string())
    );
}

#[test]
fn first_time_dependency_links() {
    let steps = download_and_symlink_dependency(&config(), "a", "1.0.0", "./nm/.qipi/r@1/nm");
    assert_eq!(
        shown(&steps),
        vec![
            "link ./nm/.qipi/r@1/nm/a -> /c/a/1.0.0",
            "link ./node_modules/a -> ./nm/.qipi/r@1/nm/a",
        ]
    );
}

#[test]
fn side_slot_links() {
    let steps = side_slot(&config(), "a", "2.0.0");
    assert_eq!(
        shown(&steps),
        vec![
            "dir ./node_modules/.qipi/a@2.0.0/node_modules",
            "link ./node_modules/.qipi/a@2.0.0/node_modules/a -> /c/a/2.0.0",
        ]
    );
}

#[test]
fn resolved_keeps_versions_by_name() {
    let mut resolved = Resolved::new();
    assert_eq!(resolved.get("a"), None);
    resolved.insert("a", "1.0.0");
    resolved.insert("b", "2.0.0");
    assert_eq!(resolved.get("a"), Some("1.0.0".to_string()));
    assert_eq!(resolved.get("b"), Some("2.0.0".to_string()));
    assert_eq!(resolved.get("c"), None);
    resolved.insert("a", "3.0.0");
    assert_eq!(resolved.get("a"), Some("3.0.0".to_string()));
}

#[test]
fn walk_without_dependencies_ends_at_once() {
    let config = config();
    let mut state = LinkState::new();
    assert!(matches!(link_dependency(&mut state, &config), Ok(None)));
    let step = state.enter(&config, "r", "1.0.0", Vec::new());
    assert_eq!(shown(&[step]), vec!["dir ./node_modules/.qipi/r@1.0.0/node_modules"]);
    assert!(matches!(link_dependency(&mut state, &config), Ok(None)));
    assert!(state.frames.is_empty());
}

#[test]
fn conflicting_versions_coexist() {
    let mut disk = Disk::new();
    let seen = walk(&mut disk, ("r", "1.0.0"), deps(&[("a", "1.0.0"), ("b", "^1.0.0")])).unwrap();
    assert_eq!(
        seen,
        vec![
            ("a".to_string(), "1.0.0".to_string(), Resolution::First),
            ("c".to_string(), "3.1".to_string(), Resolution::First),
            ("b".to_string(), "1.0.0".to_string(), Resolution::First),
            ("a".to_string(), "2.0.0".to_string(), Resolution::Conflict),
            ("c".to_string(), "3.1".to_string(), Resolution::Repeat),
        ]
    );
    // Both versions are in the cache and have a directory of their own.
    assert!(has_tarball_in_cache(&disk, "/c", "a", "1.0.0"));
    assert!(has_tarball_in_cache(&disk, "/c", "a", "2.0.0"));
    assert!(matches!(disk.node("./node_modules/.qipi/a@1.0.0/node_modules"), Some(Node::Dir)));
    assert!(matches!(disk.node("./node_modules/.qipi/a@2.0.0/node_modules"), Some(Node::Dir)));
    assert_eq!(
        link_target(&disk, "./node_modules/.qipi/a@2.0.0/node_modules/a"),
        Some("/c/a/2.0.0".to_string())
    );
    // The version linked first is the one hoisted, and the one its parent sees.
    assert_eq!(
        link_target(&disk, "./node_modules/a"),
        Some("./node_modules/.qipi/r@1.0.0/node_modules/a".to_string())
    );
    assert_eq!(
        link_target(&disk, "./node_modules/.qipi/r@1.0.0/node_modules/a"),
        Some("/c/a/1.0.0".to_string())
    );
    // The dependency of `a` was linked below `a`, and hoisted from there.
    assert_eq!(
        link_target(&disk, "./node_modules/.qipi/a@1.0.0/node_modules/c"),
        Some("/c/c/3.1".to_string())
    );
    assert_eq!(
        link_target(&disk, "./node_modules/c"),
        Some("./node_modules/.qipi/a@1.0.0/node_modules/c".to_string())
    );
    // The conflicting version is not linked where the first one could be
    // found in its place, and the repeated one gets its own directory.
    assert!(!disk.has("./node_modules/.qipi/b@1.0.0/node_modules/a"));
    assert_eq!(
        link_target(&disk, "./node_modules/.qipi/c@3.1/node_modules/c"),
        Some("/c/c/3.1".to_string())
    );
}

#[test]
fn repeated_version_is_not_entered_again() {
    let config = config();
    let mut state = LinkState::new();
    state.enter(&config, "r", "1.0.0", deps(&[("a", "1.0.0"), ("a", "=1.0.0")]));
    let first = link_dependency(&mut state, &config).unwrap().unwrap();
    assert_eq!(first.resolution, Resolution::First);
    assert!(state.descend(&config, &first, None).is_none());
    let second = link_dependency(&mut state, &config).unwrap().unwrap();
    assert_eq!(second.resolution, Resolution::Repeat);
    assert_eq!(second.version, "1.0.0");
    assert_eq!(second.entry, "/c/a/1.0.0");
    assert_eq!(shown(&second.steps), shown(&side_slot(&config, "a", "1.0.0")));
    assert!(state.descend(&config, &second, Some(deps(&[("x", "1")]))).is_none());
    assert!(matches!(link_dependency(&mut state, &config), Ok(None)));
    assert_eq!(state.resolved.get("a"), Some("1.0.0".to_string()));
    assert_eq!(state.resolved.get("x"), None);
}

#[test]
fn conflict_does_not_replace_the_first_resolution() {
    let config = config();
    let mut state = LinkState::new();
    state.enter(&config, "r", "1.0.0", deps(&[("a", "1.0.0"), ("a", "2.0.0")]));
    link_dependency(&mut state, &config).unwrap();
    let second: DepLink = link_dependency(&mut state, &config).unwrap().unwrap();
    assert_eq!(second.resolution, Resolution::Conflict);
    assert_eq!(second.entry, "/c/a/2.0.0");
    assert_eq!(state.resolved.get("a"), Some("1.0.0".to_string()));
}

#[test]
fn range_without_version_aborts_the_walk() {
    let config = config();
    let mut state = LinkState::new();
    state.enter(&config, "r", "1.0.0", deps(&[("a", "latest"), ("b", "1")]));
    match link_dependency(&mut state, &config) {
        Err(VersionError::InvalidVersionRange(range)) => assert_eq!(range, "latest"),
        other => panic!("{:?}", other),
    }
    assert_eq!(state.resolved.get("a"), None);
    assert_eq!(state.frames.len(), 1);
    assert_eq!(state.frames[0].next, 0);
}

#[test]
fn dependency_cycle_ends() {
    let config = config();
    let mut state = LinkState::new();
    state.enter(&config, "r", "1.0.0", deps(&[("a", "1")]));
    let a = link_dependency(&mut state, &config).unwrap().unwrap();
    assert!(state.descend(&config, &a, Some(deps(&[("b", "1")]))).is_some());
    let b = link_dependency(&mut state, &config).unwrap().unwrap();
    assert_eq!(b.resolution, Resolution::First);
    assert!(state.descend(&config, &b, Some(deps(&[("a", "1")]))).is_some());
    let again = link_dependency(&mut state, &config).unwrap().unwrap();
    assert_eq!(again.resolution, Resolution::Repeat);
    assert!(state.descend(&config, &again, Some(deps(&[("b", "1")]))).is_none());
    assert!(matches!(link_dependency(&mut state, &config), Ok(None)));
}
