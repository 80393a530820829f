//! The grammar of a package specifier, `[@scope/]name[@version]`, and its
//! parser.

use crate::package::{Package, PackageView, Registry};
use crate::text::{find_char, first_at, lemma_first_at, lemma_first_at_is};
use vstd::prelude::*;
use vstd::string::*;

verus! {

/// Why a package specifier was refused.
#[derive(Debug)]
pub enum SpecError {
    /// The text is no `[@scope/]name[@version]`; it is carried along.
    InvalidSpecFormat(String),
}

/// Where the name begins in a specifier: at the start, or behind the `/`
/// that closes a leading scope. A text that begins with `@` must hold a
/// scope of at least one character before its first `/`.
pub open spec fn name_start(s: Seq<char>) -> Option<int> {
    if s.len() > 0 && s[0] == '@' {
        let k = first_at(s, '/', 1);
        if 2 <= k < s.len() {
            Some(k + 1)
        } else {
            None
        }
    } else {
        Some(0)
    }
}

/// The package that a specifier denotes, if it is one.
///
/// The name runs from `name_start` to the first `@` behind it and is not
/// empty. What follows that `@` is the version: not empty and on one line.
/// Without a version the package is resolved as `latest`.
pub open spec fn spec_parse_package_entry(s: Seq<char>) -> Option<PackageView> {
    match name_start(s) {
        None => None,
        Some(b) => {
            let e = first_at(s, '@', b);
            let author = if b == 0 {
                Seq::<char>::empty()
            } else {
                s.subrange(0, b - 1)
            };
            if e == b {
                None
            } else if e == s.len() {
                Some(
                    PackageView {
                        author,
                        name: s.subrange(b, e),
                        version: "latest"@,
                        registry: Registry::NPM,
                    },
                )
            } else if e + 1 < s.len() && first_at(s, '\n', e + 1) == s.len() {
                Some(
                    PackageView {
                        author,
                        name: s.subrange(b, e),
                        version: s.subrange(e + 1, s.len() as int),
                        registry: Registry::NPM,
                    },
                )
            } else {
                None
            }
        },
    }
}

/// Splits a specifier into scope, name and version.
pub fn parse_package_entry(package: &str) -> (r: Result<Package, SpecError>)
    ensures
        match spec_parse_package_entry(package@) {
            Some(p) => r is Ok && r->Ok_0@ == p,
            None => r matches Err(SpecError::InvalidSpecFormat(t)) && t@ == package@,
        },
{
    let n = package.unicode_len();
    let mut begin: usize = 0;
    if n > 0 && package.get_char(0) == '@' {
        let k = find_char(package, '/', 1);
        if k < 2 || k >= n {
            return Err(SpecError::InvalidSpecFormat(String::from_str(package)));
        }
        begin = k + 1;
    }
    let end = find_char(package, '@', begin);
    if end == begin {
        return Err(SpecError::InvalidSpecFormat(String::from_str(package)));
    }
    let author = if begin == 0 {
        String::new()
    } else {
        String::from_str(package.substring_char(0, begin - 1))
    };
    let name = String::from_str(package.substring_char(begin, end));
    if end == n {
        return Ok(Package { author, name, version: String::from_str("latest"), registry: Registry::NPM });
    }
    if end + 1 < n && find_char(package, '\n', end + 1) == n {
        let version = String::from_str(package.substring_char(end + 1, n));
        return Ok(Package { author, name, version, registry: Registry::NPM });
    }
    Err(SpecError::InvalidSpecFormat(String::from_str(package)))
}

/// A scope: `@`, then at least one character, none of them `/`.
pub open spec fn is_scope(scope: Seq<char>) -> bool {
    &&& scope.len() >= 2
    &&& scope[0] == '@'
    &&& forall|i: int| 0 <= i < scope.len() ==> scope[i] != '/'
}

/// A name: at least one character, none of them `@`.
pub open spec fn is_name(name: Seq<char>) -> bool {
    &&& name.len() >= 1
    &&& forall|i: int| 0 <= i < name.len() ==> name[i] != '@'
}

/// A version or range token: at least one character, none a line feed.
pub open spec fn is_range(range: Seq<char>) -> bool {
    &&& range.len() >= 1
    &&& forall|i: int| 0 <= i < range.len() ==> range[i] != '\n'
}

/// The specifier written from its parts; an absent part is left out with
/// its separator.
pub open spec fn spec_format(
    scope: Option<Seq<char>>,
    name: Seq<char>,
    range: Option<Seq<char>>,
) -> Seq<char> {
    let head = match scope {
        Some(a) => a + seq!['/'] + name,
        None => name,
    };
    match range {
        Some(v) => head + seq!['@'] + v,
        None => head,
    }
}

/// Parsing recovers the parts a specifier was written from: the scope as
/// the author, the name, and the range as the version. A specifier without
/// a range has the version `latest`, one without a scope an empty author.
pub proof fn lemma_parse_recovers_parts(
    scope: Option<Seq<char>>,
    name: Seq<char>,
    range: Option<Seq<char>>,
)
    requires
        scope is Some ==> is_scope(scope->Some_0),
        is_name(name),
        range is Some ==> is_range(range->Some_0),
    ensures
        spec_parse_package_entry(spec_format(scope, name, range)) == Some(
            PackageView {
                author: match scope {
                    Some(a) => a,
                    None => Seq::empty(),
                },
                name,
                version: match range {
                    Some(v) => v,
                    None => "latest"@,
                },
                registry: Registry::NPM,
            },
        ),
{
    let s = spec_format(scope, name, range);
    let b: int = match scope {
        Some(a) => a.len() as int + 1,
        None => 0,
    };
    let e = b + name.len();
    assert(s.len() >= e);
    assert(forall|i: int| 0 <= i < name.len() ==> s[b + i] == name[i]);
    if scope is Some {
        let a = scope->Some_0;
        assert(forall|i: int| 0 <= i < a.len() ==> s[i] == a[i]);
        assert(s[a.len() as int] == '/');
        lemma_first_at_is(s, '/', 1, a.len() as int);
        assert(s.subrange(0, b - 1) =~= a);
    } else {
        assert(s[0] == name[0]);
    }
    assert(name_start(s) == Some(b));
    if range is Some {
        let v = range->Some_0;
        assert(s.len() == e + 1 + v.len());
        assert(s[e] == '@');
        assert(forall|i: int| 0 <= i < v.len() ==> s[e + 1 + i] == v[i]);
        lemma_first_at_is(s, '@', b, e);
        assert forall|k: int| e + 1 <= k < s.len() implies s[k] != '\n' by {
            assert(s[k] == v[k - e - 1]);
        }
        lemma_first_at_is(s, '\n', e + 1, s.len() as int);
        assert(s.subrange(e + 1, s.len() as int) =~= v);
    } else {
        assert(s.len() == e);
        lemma_first_at_is(s, '@', b, e);
    }
    assert(s.subrange(b, e) =~= name);
}

/// Only specifiers parse: a text that parses is written from a name, the
/// scope before it if the author is not empty, and the version behind it
/// unless the text names none and `latest` stands in.
pub proof fn lemma_parse_accepts_only_specifiers(s: Seq<char>)
    requires
        spec_parse_package_entry(s) is Some,
    ensures
        ({
            let p = spec_parse_package_entry(s)->Some_0;
            let scope = if p.author.len() == 0 {
                None
            } else {
                Some(p.author)
            };
            &&& is_name(p.name)
            &&& scope is Some ==> is_scope(p.author)
            &&& {
                ||| s == spec_format(scope, p.name, None) && p.version == "latest"@
                ||| s == spec_format(scope, p.name, Some(p.version)) && is_range(p.version)
            }
        }),
{
    let p = spec_parse_package_entry(s)->Some_0;
    let b = name_start(s)->Some_0;
    let e = first_at(s, '@', b);
    if b > 0 {
        lemma_first_at(s, '/', 1);
        assert(p.author =~= s.subrange(0, b - 1));
        assert(is_scope(p.author));
    }
    lemma_first_at(s, '@', b);
    assert(is_name(p.name));
    let scope = if p.author.len() == 0 {
        None
    } else {
        Some(p.author)
    };
    if e == s.len() {
        assert(s =~= spec_format(scope, p.name, None));
    } else {
        lemma_first_at(s, '\n', e + 1);
        assert(is_range(p.version));
        assert(s =~= spec_format(scope, p.name, Some(p.version)));
    }
}

} // verus!
