//! The snapshot a compile pass works on: a project with its configuration,
//! a listing of its directory tree, and the roots of its dependencies —
//! local directories, remote-cached items, or nested projects, resolved
//! depth-first in merge order.
use vstd::prelude::*;

use crate::config::Config;
use crate::item::{Item, spec_hex, u64_to_hex_upper};
use crate::paths::pv;

verus! {

/// One entry of a directory listing: the absolute path as the front end
/// addresses it, the path relative to the listed root, and its kind.
pub struct FsEntry {
    pub abs: String,
    pub rel: Vec<String>,
    pub is_dir: bool,
}

/// A snapshot of one dependency root: every entry beneath it (hidden ones
/// included — the walker skips them), and the text of its legacy settings
/// file when one is present.
pub struct ModDir {
    pub listing: Vec<FsEntry>,
    pub settings: Option<String>,
}

/// What a resolved dependency points at.
pub enum DepRoot {
    /// A nested project — the structured project marker was present — whose
    /// own dependencies merge depth-first before its source.
    Project(Box<Project>),
    /// A plain directory, walked after source discovery.
    Tree(ModDir),
    /// Missing content: the dependency contributes nothing (a warning, not
    /// an error).
    Missing,
}

/// A dependency found under the project's local dependencies directory.
pub struct LocalDep {
    pub name: String,
    pub root: DepRoot,
}

/// A remote-cached dependency named by the configuration.
pub struct RemoteDep {
    pub item: Item,
    pub root: DepRoot,
}

/// A project under compilation: created once per invocation, immutable for
/// the duration of a compile.
pub struct Project {
    /// The project directory, as the front end addresses it.
    pub path: String,
    /// Its configuration, read once.
    pub config: Config,
    /// The listing of the project directory itself.
    pub root: ModDir,
    /// The local dependencies, in enumeration order.
    pub local_deps: Vec<LocalDep>,
    /// The remote-cached dependencies, in configuration order.
    pub remote_deps: Vec<RemoteDep>,
}

/// A resolved dependency as callers see it: the workshop item it came from,
/// if any, and the directory its content lives in.
pub struct Dependency {
    pub item: Option<Item>,
    pub path: String,
}

/// Where a remote-cached item's content is materialized: under the hidden
/// remote-dependencies directory, keyed by the item's uppercase hexadecimal
/// id.
pub open spec fn spec_path_for_item(path: Seq<char>, id: nat) -> Seq<char> {
    path + "/"@ + ".dependencies_steam"@ + "/"@ + spec_hex(id)
}

/// The resolved dependency list: every local dependency in enumeration
/// order, then every configured remote item at its identifier-keyed cache
/// path.  Later entries override earlier ones on collision.
pub open spec fn spec_dependencies(p: Project) -> Seq<(Option<Item>, Seq<char>)> {
    p.local_deps@.map_values(
        |d: LocalDep| (Option::<Item>::None, p.path@ + "/"@ + "dependencies"@ + "/"@ + d.name@),
    ) + p.config.deps@.map_values(
        |i: Item| (Some(i), spec_path_for_item(p.path@, i.0 as nat)),
    )
}

impl Project {
    /// The conventional source directory of a structured project.
    pub fn src(&self) -> (r: String)
        ensures
            r@ == self.path@ + "/src"@,
    {
        self.path.clone().concat("/src")
    }

    /// The cache path of a remote item's content, keyed by its id.
    pub fn path_for_item(&self, i: Item) -> (r: String)
        ensures
            r@ == spec_path_for_item(self.path@, i.0 as nat),
    {
        let hex = u64_to_hex_upper(i.0);
        self.path.clone().concat("/").concat(".dependencies_steam").concat("/").concat(
            hex.as_str(),
        )
    }

    /// The ordered dependencies of one compile pass: local directories
    /// first, then the configured remote items.
    pub fn dependencies(&self) -> (r: Vec<Dependency>)
        ensures
            r@.map_values(|d: Dependency| (d.item, d.path@)) == spec_dependencies(*self),
    {
        let ghost expect = spec_dependencies(*self);
        let mut r: Vec<Dependency> = Vec::new();
        let mut i: usize = 0;
        let nl = self.local_deps.len();
        while i < nl
            invariant
                i <= nl,
                nl == self.local_deps@.len(),
                expect == spec_dependencies(*self),
                r@.len() == i,
                forall|j: int|
                    0 <= j < i ==> (#[trigger] r@[j].item, r@[j].path@) == expect[j],
            decreases nl - i,
        {
            let path = self.path.clone().concat("/").concat("dependencies").concat("/").concat(
                self.local_deps[i].name.as_str(),
            );
            r.push(Dependency { item: None, path });
            i = i + 1;
        }
        let mut k: usize = 0;
        let nr = self.config.deps.len();
        while k < nr
            invariant
                k <= nr,
                nr == self.config.deps@.len(),
                nl == self.local_deps@.len(),
                expect == spec_dependencies(*self),
                r@.len() == nl + k,
                forall|j: int|
                    0 <= j < nl + k ==> (#[trigger] r@[j].item, r@[j].path@) == expect[j],
            decreases nr - k,
        {
            let item = self.config.deps[k];
            let path = self.path_for_item(item);
            r.push(Dependency { item: Some(item), path });
            k = k + 1;
        }
        proof {
            assert(r@.map_values(|d: Dependency| (d.item, d.path@)) =~= expect);
        }
        r
    }
}

/// The display name of a directory path: its last slash-separated
/// component, or nothing for a bare root.
pub open spec fn spec_dir_name(path: Seq<char>) -> Seq<char> {
    let comps = crate::config::spec_split_slash(path);
    if comps.len() > 0 {
        comps.last()
    } else {
        Seq::<char>::empty()
    }
}

impl Dependency {
    /// The dependency's display name: the name its metadata file declares,
    /// where the caller found and read one, else its directory's name.
    pub fn name(&self, declared: Option<String>) -> (r: String)
        ensures
            r@ == match crate::config::opt_v(declared) {
                Some(n) => n,
                None => spec_dir_name(self.path@),
            },
    {
        match declared {
            Some(n) => n,
            None => {
                let comps = crate::config::split_slash(self.path.as_str());
                if comps.len() > 0 {
                    let n = comps.len();
                    let last = comps[n - 1].clone();
                    proof {
                        assert(last@ == pv(comps@).last());
                    }
                    last
                } else {
                    let r = String::new();
                    proof {
                        assert(r@ =~= Seq::<char>::empty());
                    }
                    r
                }
            },
        }
    }

    /// The dependency's page or repository address: a workshop item's page
    /// for a remote dependency, else whatever origin address the caller
    /// read from the local directory's repository, if any.
    pub fn url(&self, origin: Option<String>) -> (r: Option<String>)
        ensures
            match self.item {
                Some(i) => r is Some && r.unwrap()@ == crate::item::spec_item_url(i.0 as nat),
                None => crate::config::opt_v(r) == crate::config::opt_v(origin),
            },
    {
        match &self.item {
            Some(i) => Some(i.url()),
            None => origin,
        }
    }
}

/// Failure to update dependencies: a requested item is not a dependency of
/// this project.
#[derive(Clone, Copy, PartialEq, Eq, Structural, Debug)]
pub enum UpdateError {
    NotFound(Item),
}

impl Project {
    /// Checks an update request: every requested item must be a configured
    /// dependency of this project; the first that is not is reported.
    pub fn check_update(&self, items: &Vec<Item>) -> (r: Result<(), UpdateError>)
        ensures
            match r {
                Ok(()) => forall|i: int|
                    0 <= i < items@.len() ==> self.config.deps@.contains(#[trigger] items@[i]),
                Err(e) => match e {
                    UpdateError::NotFound(it) => items@.contains(it)
                        && !self.config.deps@.contains(it),
                },
            },
    {
        let mut i: usize = 0;
        while i < items.len()
            invariant
                i <= items@.len(),
                forall|j: int|
                    0 <= j < i ==> self.config.deps@.contains(#[trigger] items@[j]),
            decreases items@.len() - i,
        {
            let item = items[i];
            let mut found = false;
            let mut k: usize = 0;
            while k < self.config.deps.len()
                invariant
                    k <= self.config.deps@.len(),
                    item == items@[i as int],
                    i < items@.len(),
                    found ==> self.config.deps@.contains(item),
                    !found ==> forall|t: int| 0 <= t < k ==> self.config.deps@[t] != item,
                decreases self.config.deps@.len() - k,
            {
                if self.config.deps[k] == item {
                    found = true;
                }
                k = k + 1;
            }
            if !found {
                proof {
                    assert(items@.contains(item));
                }
                return Err(UpdateError::NotFound(item));
            }
            i = i + 1;
        }
        Ok(())
    }
}

} // verus!
