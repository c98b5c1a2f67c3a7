//! Version requirements and the `name@requirement` dependency syntax.

use vstd::prelude::*;

use crate::text::{split_char, split_ranges, str_chars, substring, trim, trim_range};
use crate::types::{PluginId, PluginName};
use crate::version::{version_from_chars, version_parts, Version};

verus! {

/// A requirement on the version of another plugin.
#[derive(Debug, PartialEq)]
pub enum VersionRequirement {
    /// Exactly this version. Syntax: `1.2.3`.
    Exact(Version),
    /// This version or a later one. Syntax: `>=1.2.3`.
    GreaterEqual(Version),
    /// This version or an earlier one. Syntax: `<=1.2.3`.
    LessEqual(Version),
    /// Changes that keep the left-most non-zero component. Syntax: `^1.2.3`.
    Caret(Version),
    /// Changes to the last written component only. Syntax: `~1.2.3`.
    Tilde(Version),
    /// Any version. Syntax: `*`, `any`, or no requirement at all.
    Any,
}

impl Clone for VersionRequirement {
    fn clone(&self) -> (r: Self)
        ensures
            same_requirement(r, *self),
    {
        match self {
            VersionRequirement::Exact(v) => VersionRequirement::Exact(v.clone()),
            VersionRequirement::GreaterEqual(v) => VersionRequirement::GreaterEqual(v.clone()),
            VersionRequirement::LessEqual(v) => VersionRequirement::LessEqual(v.clone()),
            VersionRequirement::Caret(v) => VersionRequirement::Caret(v.clone()),
            VersionRequirement::Tilde(v) => VersionRequirement::Tilde(v.clone()),
            VersionRequirement::Any => VersionRequirement::Any,
        }
    }
}

/// The two requirements have the same kind and versions with the same components.
pub open spec fn same_requirement(a: VersionRequirement, b: VersionRequirement) -> bool {
    match (a, b) {
        (VersionRequirement::Exact(x), VersionRequirement::Exact(y)) => x@ == y@,
        (VersionRequirement::GreaterEqual(x), VersionRequirement::GreaterEqual(y)) => x@ == y@,
        (VersionRequirement::LessEqual(x), VersionRequirement::LessEqual(y)) => x@ == y@,
        (VersionRequirement::Caret(x), VersionRequirement::Caret(y)) => x@ == y@,
        (VersionRequirement::Tilde(x), VersionRequirement::Tilde(y)) => x@ == y@,
        (VersionRequirement::Any, VersionRequirement::Any) => true,
        _ => false,
    }
}

/// `req` is what the requirement text `t` (already trimmed, not empty) says:
/// the operator it starts with, and the version written after it.
pub open spec fn requirement_for_text(req: VersionRequirement, t: Seq<char>) -> bool {
    if t.len() >= 2 && t[0] == '>' && t[1] == '=' {
        req matches VersionRequirement::GreaterEqual(v) && v@ == version_parts(t.skip(2))
    } else if t.len() >= 2 && t[0] == '<' && t[1] == '=' {
        req matches VersionRequirement::LessEqual(v) && v@ == version_parts(t.skip(2))
    } else if t.len() >= 1 && t[0] == '^' {
        req matches VersionRequirement::Caret(v) && v@ == version_parts(t.skip(1))
    } else if t.len() >= 1 && t[0] == '~' {
        req matches VersionRequirement::Tilde(v) && v@ == version_parts(t.skip(1))
    } else {
        req matches VersionRequirement::Exact(v) && v@ == version_parts(t)
    }
}

/// The wildcard requirement texts `*` and `any`.
pub open spec fn is_any_marker(t: Seq<char>) -> bool {
    t == seq!['*'] || t == seq!['a', 'n', 'y']
}

/// The text `s` names a plugin with no version requirement: it has no `@`,
/// or exactly one `@` followed by a wildcard.
pub open spec fn names_any_version(s: Seq<char>) -> bool {
    let parts = split_char(s, '@');
    parts.len() == 1 || (parts.len() == 2 && is_any_marker(trim(parts[1])))
}

/// The text `s` is a dependency that `Dependency::parse` accepts.
pub open spec fn dependency_accepted(s: Seq<char>) -> bool {
    let parts = split_char(s, '@');
    names_any_version(s) || (parts.len() == 2 && trim(parts[1]).len() > 0)
}

/// `d` is what `Dependency::parse` makes of the text `s`: no id, `s` as
/// its raw text, and the name and requirement that `s` writes.
pub open spec fn parsed_from(d: Dependency, s: Seq<char>) -> bool {
    let parts = split_char(s, '@');
    &&& d.id is None
    &&& d.raw() == s
    &&& names_any_version(s) ==> d.name@ == parts[0] && d.requirement is Any
    &&& !names_any_version(s) ==> d.name@ == trim(parts[0]) && requirement_for_text(
        d.requirement,
        trim(parts[1]),
    )
}

/// A dependency on (or a conflict with) another plugin, written
/// `name@requirement`.
#[derive(Debug, PartialEq)]
pub struct Dependency {
    /// Plugin identifier, if known (not set by parsing).
    pub id: Option<PluginId>,
    pub name: PluginName,
    pub requirement: VersionRequirement,
    /// The text the dependency was parsed from.
    pub raw_dependency: String,
}

/// A dependency text that is not of the form `name@requirement`.
#[derive(Debug, PartialEq, Eq)]
pub enum DependencyParseError {
    InvalidFormat(String),
}

impl DependencyParseError {
    /// The error message.
    pub fn message(&self) -> (r: String)
        ensures
            self matches DependencyParseError::InvalidFormat(raw) ==> r@
                == "Invalid dependency format "@ + raw@ + ". Use name@1.0.0"@,
    {
        match self {
            DependencyParseError::InvalidFormat(raw) => {
                let mut m = String::new();
                m.append("Invalid dependency format ");
                m.append(raw.as_str());
                m.append(". Use name@1.0.0");
                m
            },
        }
    }
}

impl Dependency {
    pub open spec fn raw(&self) -> Seq<char> {
        self.raw_dependency@
    }

    /// The dependency as it was written (what `Display` shows).
    pub fn to_string(&self) -> (r: String)
        ensures
            r@ == self.raw(),
    {
        self.raw_dependency.clone()
    }

    /// Parses `name`, `name@*`, `name@any`, `name@1.2.3`, `name@>=1.2.3`,
    /// `name@<=1.2.3`, `name@^1.2.3` or `name@~1.2.3`.
    pub fn parse(dependency: &str) -> (r: Result<Dependency, DependencyParseError>)
        ensures
            r is Ok <==> dependency_accepted(dependency@),
            r matches Ok(d) ==> parsed_from(d, dependency@),
            r matches Err(e) ==> e == DependencyParseError::InvalidFormat(e->InvalidFormat_0)
                && e->InvalidFormat_0@ == dependency@,
    {
        let chars = str_chars(dependency);
        let n = chars.len();
        let ghost s = dependency@;
        assert(chars@.subrange(0, n as int) =~= s);
        let ranges = split_ranges(&chars, 0, n, '@');
        let ghost parts = split_char(s, '@');
        if ranges.len() == 1 {
            let (p, q) = ranges[0];
            return Ok(
                Dependency {
                    id: None,
                    name: PluginName(substring(dependency, p, q)),
                    requirement: VersionRequirement::Any,
                    raw_dependency: dependency.to_owned(),
                },
            );
        }
        if ranges.len() == 2 {
            let (p1, q1) = ranges[1];
            let (a, b) = trim_range(&chars, p1, q1);
            let ghost t = chars@.subrange(a as int, b as int);
            assert(t == trim(parts[1]));
            let is_star = b - a == 1 && chars[a] == '*';
            let is_any = b - a == 3 && chars[a] == 'a' && chars[a + 1] == 'n' && chars[a + 2]
                == 'y';
            proof {
                if is_star {
                    assert(t =~= seq!['*']);
                }
                if is_any {
                    assert(t =~= seq!['a', 'n', 'y']);
                }
                if t == seq!['*'] {
                    assert(t[0] == '*');
                }
                if t == seq!['a', 'n', 'y'] {
                    assert(t[0] == 'a' && t[1] == 'n' && t[2] == 'y');
                }
            }
            if is_star || is_any {
                let (p, q) = ranges[0];
                return Ok(
                    Dependency {
                        id: None,
                        name: PluginName(substring(dependency, p, q)),
                        requirement: VersionRequirement::Any,
                        raw_dependency: dependency.to_owned(),
                    },
                );
            }
            if a == b {
                return Err(DependencyParseError::InvalidFormat(dependency.to_owned()));
            }
            let (p0, q0) = ranges[0];
            let (na, nb) = trim_range(&chars, p0, q0);
            let name = PluginName(substring(dependency, na, nb));
            let requirement = if b - a >= 2 && chars[a] == '>' && chars[a + 1] == '=' {
                assert(chars@.subrange(a + 2, b as int) =~= t.skip(2));
                VersionRequirement::GreaterEqual(version_from_chars(dependency, &chars, a + 2, b))
            } else if b - a >= 2 && chars[a] == '<' && chars[a + 1] == '=' {
                assert(chars@.subrange(a + 2, b as int) =~= t.skip(2));
                VersionRequirement::LessEqual(version_from_chars(dependency, &chars, a + 2, b))
            } else if chars[a] == '^' {
                assert(chars@.subrange(a + 1, b as int) =~= t.skip(1));
                VersionRequirement::Caret(version_from_chars(dependency, &chars, a + 1, b))
            } else if chars[a] == '~' {
                assert(chars@.subrange(a + 1, b as int) =~= t.skip(1));
                VersionRequirement::Tilde(version_from_chars(dependency, &chars, a + 1, b))
            } else {
                VersionRequirement::Exact(version_from_chars(dependency, &chars, a, b))
            };
            return Ok(
                Dependency { id: None, name, requirement, raw_dependency: dependency.to_owned() },
            );
        }
        Err(DependencyParseError::InvalidFormat(dependency.to_owned()))
    }
}

impl Clone for Dependency {
    fn clone(&self) -> (r: Self)
        ensures
            r.id == self.id,
            r.name@ == self.name@,
            same_requirement(r.requirement, self.requirement),
            r.raw() == self.raw(),
    {
        Dependency {
            id: self.id,
            name: self.name.clone(),
            requirement: self.requirement.clone(),
            raw_dependency: self.raw_dependency.clone(),
        }
    }
}

} // verus!
