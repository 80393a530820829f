use qipi::entry::{parse_package_entry, SpecError};
use qipi::package::Registry;
use qipi::version::{parse_version, VersionError};
use regex::Regex;

const PACKAGE_PATTERN: &str = r"^(?:(?P<author>@[^/]+)/)?(?P<name>[^@]+)(?:@(?P<version>.+))?$";
const VERSION_PATTERN: &str = r"^(>=|<=|>|<|=|~|\^)?\s*([0-9]+(?:\.[0-9]+)*(?:\.[0-9]+)?)";

fn parts(spec: &str) -> Option<(String, String, String)> {
    match parse_package_entry(spec) {
        Ok(p) => {
            assert_eq!(p.registry, Registry::NPM);
            Some((p.author, p.name, p.version))
        }
        Err(SpecError::InvalidSpecFormat(text)) => {
            assert_eq!(text, spec);
            None
        }
    }
}

fn parts_by_pattern(re: &Regex, spec: &str) -> Option<(String, String, String)> {
    let caps = re.captures(spec)?;
    let author = caps.name("author").map_or_else(String::new, |m| m.as_str().to_string());
    let name = caps.name("name").map_or_else(String::new, |m| m.as_str().to_string());
    let version = caps
        .name("version")
        .map_or_else(|| "latest".to_string(), |m| m.as_str().to_string());
    Some((author, name, version))
}

fn three(a: &str, b: &str, c: &str) -> Option<(String, String, String)> {
    Some((a.to_string(), b.to_string(), c.to_string()))
}

#[test]
fn scoped_spec_with_range() {
    assert_eq!(parts("@scope/name@^1.2.3"), three("@scope", "name", "^1.2.3"));
}

#[test]
fn scoped_spec_without_version_is_latest() {
    assert_eq!(parts("@scope/name"), three("@scope", "name", "latest"));
}

#[test]
fn plain_spec_has_empty_author() {
    assert_eq!(parts("left-pad@1.3.0"), three("", "left-pad", "1.3.0"));
    assert_eq!(parts("left-pad"), three("", "left-pad", "latest"));
}

#[test]
fn version_may_hold_an_at_sign() {
    assert_eq!(parts("a@b@c"), three("", "a", "b@c"));
}

#[test]
fn name_may_hold_a_slash() {
    assert_eq!(parts("@a/b/c@1"), three("@a", "b/c", "1"));
    assert_eq!(parts("a/b"), three("", "a/b", "latest"));
}

#[test]
fn malformed_specs_are_refused() {
    for spec in ["", "@", "@scope", "@scope/", "@/name", "name@", "@a/@b", "@a/b@", "a@1\n", "@@"] {
        assert_eq!(parts(spec), None, "{:?}", spec);
    }
}

#[test]
fn parser_agrees_with_the_pattern() {
    let alphabet = ["@", "/", "a", "1", ".", "\n", "é", "^", " "];
    let mut specs: Vec<String> = vec![String::new()];
    let mut layer: Vec<String> = vec![String::new()];
    for _ in 0..4 {
        let mut next = Vec::new();
        for s in &layer {
            for c in alphabet {
                next.push(format!("{}{}", s, c));
            }
        }
        specs.extend(next.iter().cloned());
        layer = next;
    }
    for spec in ["@scope/pkg@^1.2.3", "@scope/pkg", "left-pad@1.3.0", "@a/b/c@1\n", "@a//b@@"] {
        specs.push(spec.to_string());
    }
    assert!(specs.len() > 7000);
    let re = Regex::new(PACKAGE_PATTERN).unwrap();
    for spec in &specs {
        assert_eq!(parts(spec), parts_by_pattern(&re, spec), "{:?}", spec);
    }
}

fn reduced(range: &str) -> Option<String> {
    match parse_version(range) {
        Ok(v) => Some(v),
        Err(VersionError::InvalidVersionRange(text)) => {
            assert_eq!(text, range);
            None
        }
    }
}

fn reduced_by_pattern(re: &Regex, range: &str) -> Option<String> {
    re.captures(range).map(|caps| caps.get(2).map_or("", |m| m.as_str()).to_string())
}

#[test]
fn operators_are_stripped() {
    for op in ["", "^", "~", "=", ">", "<", ">=", "<="] {
        assert_eq!(reduced(&format!("{}1.2.3", op)), Some("1.2.3".to_string()));
        assert_eq!(reduced(&format!("{} 1.2.3", op)), Some("1.2.3".to_string()));
    }
}

#[test]
fn the_first_number_is_kept() {
    assert_eq!(reduced("~2.0"), Some("2.0".to_string()));
    assert_eq!(reduced("1.0.0"), Some("1.0.0".to_string()));
    assert_eq!(reduced("1.2.3-beta.1"), Some("1.2.3".to_string()));
    assert_eq!(reduced(">=1.2.3 <2.0.0"), Some("1.2.3".to_string()));
    assert_eq!(reduced("1.x"), Some("1".to_string()));
    assert_eq!(reduced("1."), Some("1".to_string()));
    assert_eq!(reduced("1..2"), Some("1".to_string()));
    assert_eq!(reduced("\u{a0}\t7.10"), Some("7.10".to_string()));
}

#[test]
fn ranges_without_a_number_are_refused() {
    for range in ["", "latest", "*", "^", ">=", "=>1", "^^1", "v1.0.0", ".1", "x1", "\u{661}"] {
        assert_eq!(reduced(range), None, "{:?}", range);
    }
}

#[test]
fn reducer_agrees_with_the_pattern() {
    let alphabet = [">", "<", "=", "~", "^", " ", "\u{2003}", "1", "0", ".", "x", "\u{663}"];
    let mut layer: Vec<String> = vec![String::new()];
    let mut count = 0;
    let re = Regex::new(VERSION_PATTERN).unwrap();
    for range in [">=1.2.3 <2.0.0", "^10.20.30.40", "~ 1.2.x", "<=\t2.0.0-rc.1"] {
        assert_eq!(reduced(range), reduced_by_pattern(&re, range), "{:?}", range);
    }
    for _ in 0..3 {
        let mut next = Vec::new();
        for s in &layer {
            for c in alphabet {
                next.push(format!("{}{}", s, c));
            }
        }
        for range in &next {
            assert_eq!(reduced(range), reduced_by_pattern(&re, range), "{:?}", range);
            count += 1;
        }
        layer = next;
    }
    assert!(count > 1800);
}
