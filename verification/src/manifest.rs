//! The repository boundary: Cargo manifests may only reach path dependencies
//! inside the repository, and Cargo configuration may not override sources.

use vstd::prelude::*;

use crate::error::Error;
use crate::text::same_text;

verus! {

/// A TOML value, as far as the boundary reads it.
#[derive(Debug)]
pub enum TomlValue {
    Text(String),
    Table(Vec<(String, TomlValue)>),
    Array(Vec<TomlValue>),
    Other,
}

/// One component of a filesystem path.
#[derive(Debug)]
pub enum PathComponent {
    Prefix(String),
    RootDir,
    CurDir,
    ParentDir,
    Normal(String),
}

/// A path dependency that a manifest declares: its table, its name and its path.
#[derive(Debug)]
pub struct PathDeclaration {
    pub table: String,
    pub name: String,
    pub path: String,
}

/// The value of the first entry with the key.
pub open spec fn entry(entries: Seq<(String, TomlValue)>, key: Seq<char>) -> Option<TomlValue>
    decreases entries.len(),
{
    if entries.len() == 0 {
        None
    } else if entries[0].0@ == key {
        Some(entries[0].1)
    } else {
        entry(entries.drop_first(), key)
    }
}

/// The path that a dependency entry declares, where it declares one.
pub open spec fn declared_path(dependency: TomlValue) -> Option<Seq<char>> {
    match dependency {
        TomlValue::Table(fields) => match entry(fields@, "path"@) {
            Some(TomlValue::Text(p)) => Some(p@),
            _ => None,
        },
        _ => None,
    }
}

/// The path declarations of a dependency table's entries, in order.
pub open spec fn entry_declarations(label: Seq<char>, entries: Seq<(String, TomlValue)>) -> Seq<(Seq<char>, Seq<char>, Seq<char>)>
    decreases entries.len(),
{
    if entries.len() == 0 {
        seq![]
    } else {
        entry_declarations(label, entries.drop_last()) + match declared_path(entries.last().1) {
            Some(p) => seq![(label, entries.last().0@, p)],
            None => seq![],
        }
    }
}

/// The path declarations of a dependency table.
pub open spec fn dependency_declarations(label: Seq<char>, dependencies: TomlValue) -> Seq<(Seq<char>, Seq<char>, Seq<char>)> {
    match dependencies {
        TomlValue::Table(entries) => entry_declarations(label, entries@),
        _ => seq![],
    }
}

/// The declarations of one dependency table of a table, where it holds that table.
pub open spec fn named_declarations(table: Seq<(String, TomlValue)>, name: Seq<char>) -> Seq<(Seq<char>, Seq<char>, Seq<char>)> {
    match entry(table, name) {
        Some(v) => dependency_declarations(name, v),
        None => seq![],
    }
}

/// The declarations of the dependency, dev-dependency and build-dependency tables of a table.
pub open spec fn table_declarations(table: Seq<(String, TomlValue)>) -> Seq<(Seq<char>, Seq<char>, Seq<char>)> {
    named_declarations(table, "dependencies"@) + named_declarations(table, "dev-dependencies"@)
        + named_declarations(table, "build-dependencies"@)
}

/// The declarations of every platform-specific target table, in order.
pub open spec fn target_declarations(targets: Seq<(String, TomlValue)>) -> Seq<(Seq<char>, Seq<char>, Seq<char>)>
    decreases targets.len(),
{
    if targets.len() == 0 {
        seq![]
    } else {
        target_declarations(targets.drop_last()) + match targets.last().1 {
            TomlValue::Table(t) => table_declarations(t@),
            _ => seq![],
        }
    }
}

/// The declarations of every patched source, in order, each labelled `patch.<source>`.
pub open spec fn patch_declarations(patches: Seq<(String, TomlValue)>) -> Seq<(Seq<char>, Seq<char>, Seq<char>)>
    decreases patches.len(),
{
    if patches.len() == 0 {
        seq![]
    } else {
        patch_declarations(patches.drop_last()) + dependency_declarations(
            "patch."@ + patches.last().0@,
            patches.last().1,
        )
    }
}

/// Every path dependency that a manifest declares, in the order it is inspected:
/// its own dependency tables, the workspace's, each target's, each patch, then
/// the replacements.
pub open spec fn manifest_declarations(document: TomlValue) -> Seq<(Seq<char>, Seq<char>, Seq<char>)> {
    match document {
        TomlValue::Table(t) => {
            let t = t@;
            table_declarations(t) + match entry(t, "workspace"@) {
                Some(TomlValue::Table(w)) => table_declarations(w@),
                _ => seq![],
            } + match entry(t, "target"@) {
                Some(TomlValue::Table(ts)) => target_declarations(ts@),
                _ => seq![],
            } + match entry(t, "patch"@) {
                Some(TomlValue::Table(ps)) => patch_declarations(ps@),
                _ => seq![],
            } + match entry(t, "replace"@) {
                Some(v) => dependency_declarations("replace"@, v),
                None => seq![],
            }
        },
        _ => seq![],
    }
}

/// The declarations as text.
pub open spec fn declaration_views(v: Seq<PathDeclaration>) -> Seq<(Seq<char>, Seq<char>, Seq<char>)> {
    v.map_values(|d: PathDeclaration| (d.table@, d.name@, d.path@))
}

fn lookup<'a>(entries: &'a Vec<(String, TomlValue)>, key: &str) -> (r: Option<&'a TomlValue>)
    ensures
        match r {
            Some(v) => entry(entries@, key@) == Some(*v),
            None => entry(entries@, key@) is None,
        },
{
    let mut i: usize = 0;
    assert(entries@.skip(0) =~= entries@);
    while i < entries.len()
        invariant
            i <= entries@.len(),
            entry(entries@, key@) == entry(entries@.skip(i as int), key@),
        decreases entries@.len() - i,
    {
        assert(entries@.skip(i as int).drop_first() =~= entries@.skip(i + 1));
        if same_text(entries[i].0.as_str(), key) {
            return Some(&entries[i].1);
        }
        i = i + 1;
    }
    None
}

fn path_of(dependency: &TomlValue) -> (r: Option<String>)
    ensures
        match r {
            Some(p) => declared_path(*dependency) == Some(p@),
            None => declared_path(*dependency) is None,
        },
{
    match dependency {
        TomlValue::Table(fields) => match lookup(fields, "path") {
            Some(TomlValue::Text(p)) => Some(p.clone()),
            _ => None,
        },
        _ => None,
    }
}

fn collect_dependencies(label: &str, dependencies: &TomlValue, out: &mut Vec<PathDeclaration>)
    ensures
        declaration_views(final(out)@) == declaration_views(old(out)@) + dependency_declarations(label@, *dependencies),
{
    let ghost start = declaration_views(out@);
    match dependencies {
        TomlValue::Table(entries) => {
            let mut i: usize = 0;
            while i < entries.len()
                invariant
                    i <= entries@.len(),
                    declaration_views(out@) == start + entry_declarations(label@, entries@.subrange(0, i as int)),
                decreases entries@.len() - i,
            {
                assert(entries@.subrange(0, i + 1).drop_last() =~= entries@.subrange(0, i as int));
                let ghost before = out@;
                if let Some(p) = path_of(&entries[i].1) {
                    out.push(PathDeclaration { table: label.to_owned(), name: entries[i].0.clone(), path: p });
                    assert(declaration_views(out@) =~= declaration_views(before).push((label@, entries@[i as int].0@, p@)));
                }
                i = i + 1;
                assert(declaration_views(out@) =~= start + entry_declarations(label@, entries@.subrange(0, i as int)));
            }
            assert(entries@.subrange(0, entries@.len() as int) =~= entries@);
        },
        _ => {
            assert(declaration_views(out@) =~= start + dependency_declarations(label@, *dependencies));
        },
    }
}

fn collect_named(table: &Vec<(String, TomlValue)>, name: &str, out: &mut Vec<PathDeclaration>)
    ensures
        declaration_views(final(out)@) == declaration_views(old(out)@) + named_declarations(table@, name@),
{
    match lookup(table, name) {
        Some(v) => collect_dependencies(name, v, out),
        None => {
            assert(declaration_views(out@) =~= declaration_views(out@) + named_declarations(table@, name@));
        },
    }
}

fn collect_table(table: &Vec<(String, TomlValue)>, out: &mut Vec<PathDeclaration>)
    ensures
        declaration_views(final(out)@) == declaration_views(old(out)@) + table_declarations(table@),
{
    let ghost start = declaration_views(out@);
    collect_named(table, "dependencies", out);
    collect_named(table, "dev-dependencies", out);
    collect_named(table, "build-dependencies", out);
    assert(declaration_views(out@) =~= start + table_declarations(table@));
}

/// Every path dependency that the manifest declares, in the order it is inspected.
pub fn path_declarations(document: &TomlValue) -> (r: Vec<PathDeclaration>)
    ensures
        declaration_views(r@) == manifest_declarations(*document),
{
    let mut out: Vec<PathDeclaration> = Vec::new();
    match document {
        TomlValue::Table(t) => {
            collect_table(t, &mut out);
            let ghost a = declaration_views(out@);
            match lookup(t, "workspace") {
                Some(TomlValue::Table(w)) => collect_table(w, &mut out),
                _ => {},
            }
            let ghost b = declaration_views(out@);
            match lookup(t, "target") {
                Some(TomlValue::Table(ts)) => {
                    let mut i: usize = 0;
                    while i < ts.len()
                        invariant
                            i <= ts@.len(),
                            declaration_views(out@) == b + target_declarations(ts@.subrange(0, i as int)),
                        decreases ts@.len() - i,
                    {
                        assert(ts@.subrange(0, i + 1).drop_last() =~= ts@.subrange(0, i as int));
                        let ghost before = declaration_views(out@);
                        match &ts[i].1 {
                            TomlValue::Table(target) => collect_table(target, &mut out),
                            _ => {},
                        }
                        i = i + 1;
                        assert(declaration_views(out@) =~= b + target_declarations(ts@.subrange(0, i as int)));
                    }
                    assert(ts@.subrange(0, ts@.len() as int) =~= ts@);
                },
                _ => {},
            }
            let ghost c = declaration_views(out@);
            match lookup(t, "patch") {
                Some(TomlValue::Table(ps)) => {
                    let mut i: usize = 0;
                    while i < ps.len()
                        invariant
                            i <= ps@.len(),
                            declaration_views(out@) == c + patch_declarations(ps@.subrange(0, i as int)),
                        decreases ps@.len() - i,
                    {
                        assert(ps@.subrange(0, i + 1).drop_last() =~= ps@.subrange(0, i as int));
                        let mut label = "patch.".to_owned();
                        label.append(ps[i].0.as_str());
                        collect_dependencies(label.as_str(), &ps[i].1, &mut out);
                        i = i + 1;
                        assert(declaration_views(out@) =~= c + patch_declarations(ps@.subrange(0, i as int)));
                    }
                    assert(ps@.subrange(0, ps@.len() as int) =~= ps@);
                },
                _ => {},
            }
            let ghost d = declaration_views(out@);
            match lookup(t, "replace") {
                Some(v) => collect_dependencies("replace", v, &mut out),
                None => {},
            }
            assert(declaration_views(out@) =~= manifest_declarations(*document));
        },
        _ => {
            assert(declaration_views(out@) =~= manifest_declarations(*document));
        },
    }
    out
}

/// Whether a Cargo configuration overrides sources with a nonempty `paths` array.
pub fn declares_paths(document: &TomlValue) -> (r: bool)
    ensures
        r == (document matches TomlValue::Table(t) && (entry(t@, "paths"@) matches Some(
            TomlValue::Array(a),
        ) && a@.len() > 0)),
{
    match document {
        TomlValue::Table(t) => match lookup(t, "paths") {
            Some(TomlValue::Array(a)) => a.len() > 0,
            _ => false,
        },
        _ => false,
    }
}


/// The path with one level removed, as `PathBuf::pop` removes it: the last normal
/// component goes, a root or prefix stays.
pub open spec fn popped(path: Seq<PathComponent>) -> Seq<PathComponent> {
    if path.len() > 0 && path.last() is Normal {
        path.drop_last()
    } else {
        path
    }
}

/// The path with `.` dropped and each `..` taken back lexically, without
/// consulting the filesystem.
pub open spec fn normalized(path: Seq<PathComponent>) -> Seq<PathComponent>
    decreases path.len(),
{
    if path.len() == 0 {
        seq![]
    } else {
        let prior = normalized(path.drop_last());
        match path.last() {
            PathComponent::CurDir => prior,
            PathComponent::ParentDir => popped(prior),
            c => prior.push(c),
        }
    }
}

/// Two components name the same thing.
pub open spec fn same_component(a: PathComponent, b: PathComponent) -> bool {
    match (a, b) {
        (PathComponent::Prefix(x), PathComponent::Prefix(y)) => x@ == y@,
        (PathComponent::RootDir, PathComponent::RootDir) => true,
        (PathComponent::CurDir, PathComponent::CurDir) => true,
        (PathComponent::ParentDir, PathComponent::ParentDir) => true,
        (PathComponent::Normal(x), PathComponent::Normal(y)) => x@ == y@,
        _ => false,
    }
}

/// `path` begins with every component of `base`.
pub open spec fn within(base: Seq<PathComponent>, path: Seq<PathComponent>) -> bool {
    base.len() <= path.len() && forall|i: int| 0 <= i < base.len() ==> same_component(#[trigger] base[i], path[i])
}

fn copy_component(c: &PathComponent) -> (r: PathComponent)
    ensures
        r == *c,
{
    match c {
        PathComponent::Prefix(s) => PathComponent::Prefix(s.clone()),
        PathComponent::RootDir => PathComponent::RootDir,
        PathComponent::CurDir => PathComponent::CurDir,
        PathComponent::ParentDir => PathComponent::ParentDir,
        PathComponent::Normal(s) => PathComponent::Normal(s.clone()),
    }
}

/// The path with `.` dropped and each `..` taken back lexically.
pub fn normalize(path: &Vec<PathComponent>) -> (r: Vec<PathComponent>)
    ensures
        r@ == normalized(path@),
{
    let mut out: Vec<PathComponent> = Vec::new();
    let mut i: usize = 0;
    while i < path.len()
        invariant
            i <= path@.len(),
            out@ == normalized(path@.subrange(0, i as int)),
        decreases path@.len() - i,
    {
        assert(path@.subrange(0, i + 1).drop_last() =~= path@.subrange(0, i as int));
        assert(path@.subrange(0, i + 1).last() == path@[i as int]);
        match &path[i] {
            PathComponent::CurDir => {},
            PathComponent::ParentDir => {
                let n = out.len();
                if n > 0 {
                    if let PathComponent::Normal(_) = &out[n - 1] {
                        let _ = out.pop();
                    }
                }
            },
            c => {
                out.push(copy_component(c));
            },
        }
        i = i + 1;
        assert(out@ =~= normalized(path@.subrange(0, i as int)));
    }
    assert(path@.subrange(0, path@.len() as int) =~= path@);
    out
}

fn components_agree(a: &PathComponent, b: &PathComponent) -> (r: bool)
    ensures
        r == same_component(*a, *b),
{
    match (a, b) {
        (PathComponent::Prefix(x), PathComponent::Prefix(y)) => same_text(x.as_str(), y.as_str()),
        (PathComponent::RootDir, PathComponent::RootDir) => true,
        (PathComponent::CurDir, PathComponent::CurDir) => true,
        (PathComponent::ParentDir, PathComponent::ParentDir) => true,
        (PathComponent::Normal(x), PathComponent::Normal(y)) => same_text(x.as_str(), y.as_str()),
        _ => false,
    }
}

/// Whether `path` lies within `base`, component by component.
pub fn starts_with(path: &Vec<PathComponent>, base: &Vec<PathComponent>) -> (r: bool)
    ensures
        r == within(base@, path@),
{
    if base.len() > path.len() {
        return false;
    }
    let mut i: usize = 0;
    while i < base.len()
        invariant
            base@.len() <= path@.len(),
            i <= base@.len(),
            forall|k: int| 0 <= k < i ==> same_component(#[trigger] base@[k], path@[k]),
        decreases base@.len() - i,
    {
        if !components_agree(&base[i], &path[i]) {
            return false;
        }
        i = i + 1;
    }
    true
}

/// Refuses a path dependency whose resolved location lies outside the repository root.
pub fn check_declaration(manifest: &str, declaration: &PathDeclaration, root: &Vec<PathComponent>, resolved: &Vec<PathComponent>) -> (r: Result<(), Error>)
    ensures
        r is Ok <==> within(root@, resolved@),
        r matches Err(e) ==> e matches Error::ExternalPathDependency(m, t, n, p) && m@ == manifest@
            && t@ == declaration.table@ && n@ == declaration.name@ && p@ == declaration.path@,
{
    if starts_with(resolved, root) {
        Ok(())
    } else {
        Err(
            Error::ExternalPathDependency(
                manifest.to_owned(),
                declaration.table.clone(),
                declaration.name.clone(),
                declaration.path.clone(),
            ),
        )
    }
}

/// Refuses a Cargo configuration that overrides sources with `paths`.
pub fn check_cargo_config(relative: &str, document: &TomlValue) -> (r: Result<(), Error>)
    ensures
        r is Ok <==> !(document matches TomlValue::Table(t) && (entry(t@, "paths"@) matches Some(
            TomlValue::Array(a),
        ) && a@.len() > 0)),
        r matches Err(e) ==> e matches Error::CargoPathsOverride(f) && f@ == relative@,
{
    if declares_paths(document) {
        Err(Error::CargoPathsOverride(relative.to_owned()))
    } else {
        Ok(())
    }
}


/// A directory that the boundary walk never enters: version control, worktrees, build output.
pub open spec fn pruned_name(name: Seq<char>) -> bool {
    name == ".git"@ || name == ".worktrees"@ || name == "target"@
}

/// Whether the boundary walk skips a directory of this name.
pub fn is_pruned(name: &str) -> (r: bool)
    ensures
        r == pruned_name(name@),
{
    same_text(name, ".git") || same_text(name, ".worktrees") || same_text(name, "target")
}

/// Whether a file of this name is a Cargo manifest.
pub fn is_manifest(name: &str) -> (r: bool)
    ensures
        r == (name@ == "Cargo.toml"@),
{
    same_text(name, "Cargo.toml")
}

/// The Cargo configuration files, relative to the repository root, that may override sources.
pub fn cargo_config_files() -> (r: Vec<&'static str>)
    ensures
        r@.len() == 2,
        r@[0]@ == ".cargo/config.toml"@,
        r@[1]@ == ".cargo/config"@,
{
    vec![".cargo/config.toml", ".cargo/config"]
}

} // verus!
