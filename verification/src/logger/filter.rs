//! Filtering log records by module path: an exclude list that always wins,
//! and an allow list that, when not empty, admits only its modules.

use vstd::prelude::*;
use super::Level;
use crate::text::{chars_of, starts_with_chars};

verus! {

/// Whether `path` starts with one of `prefixes`.
pub open spec fn has_listed_prefix(prefixes: Seq<Seq<char>>, path: Seq<char>) -> bool {
    exists|i: int| 0 <= i < prefixes.len() && #[trigger] prefixes[i].is_prefix_of(path)
}

/// Whether a record of module `path` is logged: not under an excluded
/// module, and under an included one unless nothing is included.
pub open spec fn admits(allow: Seq<Seq<char>>, exclude: Seq<Seq<char>>, path: Seq<char>) -> bool {
    !has_listed_prefix(exclude, path) && (allow.len() == 0 || has_listed_prefix(allow, path))
}

/// The characters of each string.
pub open spec fn names(v: Seq<String>) -> Seq<Seq<char>> {
    v.map_values(|x: String| x@)
}

/// A module filter with a default level.
#[derive(Debug, Clone)]
pub struct ModuleFilter {
    allow: Vec<String>,
    exclude: Vec<String>,
    default_level: Level,
}

/// `v` with the strings of `more` appended.
fn push_all(v: &mut Vec<String>, more: &Vec<&str>)
    ensures
        names(final(v)@) == names(old(v)@) + more@.map_values(|s: &str| s@),
{
    let mut i: usize = 0;
    while i < more.len()
        invariant
            i <= more@.len(),
            names(v@) == names(old(v)@) + more@.subrange(0, i as int).map_values(|s: &str| s@),
        decreases more@.len() - i,
    {
        let ghost before = names(v@);
        v.push(String::from_str(more[i]));
        assert(names(v@) =~= before.push(more@[i as int]@));
        assert(more@.subrange(0, i + 1).map_values(|s: &str| s@) =~= more@.subrange(0, i as int).map_values(
            |s: &str| s@,
        ).push(more@[i as int]@));
        i += 1;
    }
    assert(more@.subrange(0, more@.len() as int) =~= more@);
}

/// Whether `path` starts with one of `list`.
fn listed(list: &Vec<String>, path: &[char]) -> (b: bool)
    ensures
        b == has_listed_prefix(names(list@), path@),
{
    let mut i: usize = 0;
    while i < list.len()
        invariant
            i <= list@.len(),
            forall|j: int| 0 <= j < i ==> !(#[trigger] names(list@)[j]).is_prefix_of(path@),
        decreases list@.len() - i,
    {
        let p = chars_of(list[i].as_str());
        if starts_with_chars(path, p.as_slice()) {
            assert(names(list@)[i as int] == list@[i as int]@);
            return true;
        }
        i += 1;
    }
    false
}

impl ModuleFilter {
    /// The included module prefixes.
    pub closed spec fn included(&self) -> Seq<Seq<char>> {
        names(self.allow@)
    }

    /// The excluded module prefixes.
    pub closed spec fn excluded(&self) -> Seq<Seq<char>> {
        names(self.exclude@)
    }

    /// The default level.
    pub closed spec fn level(&self) -> Level {
        self.default_level
    }

    /// A filter that admits every module, with `default_level`.
    pub fn new(default_level: Level) -> (f: ModuleFilter)
        ensures
            f.included().len() == 0,
            f.excluded().len() == 0,
            f.level() == default_level,
    {
        let f = ModuleFilter { allow: Vec::new(), exclude: Vec::new(), default_level };
        assert(f.included() =~= Seq::empty());
        assert(f.excluded() =~= Seq::empty());
        f
    }

    /// This filter also admitting `module` and what lies under it.
    pub fn include_module(self, module: &str) -> (f: ModuleFilter)
        ensures
            f.included() == self.included().push(module@),
            f.excluded() == self.excluded(),
            f.level() == self.level(),
    {
        let mut f = self;
        let ghost before = names(f.allow@);
        f.allow.push(String::from_str(module));
        assert(names(f.allow@) =~= before.push(module@));
        f
    }

    /// This filter also including each of `modules`.
    pub fn include_many(self, modules: Vec<&str>) -> (f: ModuleFilter)
        ensures
            f.included() == self.included() + modules@.map_values(|s: &str| s@),
            f.excluded() == self.excluded(),
            f.level() == self.level(),
    {
        let mut f = self;
        push_all(&mut f.allow, &modules);
        f
    }

    /// This filter also excluding `module` and what lies under it.
    pub fn exclude(self, module: &str) -> (f: ModuleFilter)
        ensures
            f.excluded() == self.excluded().push(module@),
            f.included() == self.included(),
            f.level() == self.level(),
    {
        let mut f = self;
        let ghost before = names(f.exclude@);
        f.exclude.push(String::from_str(module));
        assert(names(f.exclude@) =~= before.push(module@));
        f
    }

    /// This filter also excluding each of `modules`.
    pub fn exclude_many(self, modules: Vec<&str>) -> (f: ModuleFilter)
        ensures
            f.excluded() == self.excluded() + modules@.map_values(|s: &str| s@),
            f.included() == self.included(),
            f.level() == self.level(),
    {
        let mut f = self;
        push_all(&mut f.exclude, &modules);
        f
    }

    /// This filter with default level `level`.
    pub fn with_default_level(self, level: Level) -> (f: ModuleFilter)
        ensures
            f.level() == level,
            f.included() == self.included(),
            f.excluded() == self.excluded(),
    {
        let mut f = self;
        f.default_level = level;
        f
    }

    /// Whether records of `path_name` are logged (see `admits`); module
    /// matching is by string prefix.
    pub fn should_log(&self, path_name: &str) -> (b: bool)
        ensures
            b == admits(self.included(), self.excluded(), path_name@),
    {
        let path = chars_of(path_name);
        if listed(&self.exclude, path.as_slice()) {
            return false;
        }
        if self.allow.len() == 0 {
            return true;
        }
        listed(&self.allow, path.as_slice())
    }

    /// The default level.
    pub fn default_level(&self) -> (l: Level)
        ensures
            l == self.level(),
    {
        self.default_level
    }
}

impl Default for ModuleFilter {
    fn default() -> (f: ModuleFilter)
        ensures
            f.included().len() == 0,
            f.excluded().len() == 0,
            f.level() == Level::Info,
    {
        ModuleFilter::new(Level::Info)
    }
}

/// Excluding a module silences it and everything under it, whatever is included.
pub proof fn lemma_exclude_wins(allow: Seq<Seq<char>>, exclude: Seq<Seq<char>>, module: Seq<char>, path: Seq<char>)
    requires
        module.is_prefix_of(path),
    ensures
        !admits(allow, exclude.push(module), path),
{
    assert(exclude.push(module)[exclude.len() as int] == module);
}

/// A filter with nothing included and nothing excluded admits every module.
pub proof fn lemma_empty_filter_admits_all(path: Seq<char>)
    ensures
        admits(Seq::empty(), Seq::empty(), path),
{
}

} // verus!
