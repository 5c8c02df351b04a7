//! The merge engine: dependencies are resolved in order and depth-first,
//! each root's sources are discovered and walked with hidden entries
//! skipped, every file is dispatched through the rule table into the
//! builder, and the passthrough queue is finalized once — yielding the
//! output plan of one compile pass.
use vstd::prelude::*;

use crate::builder::{
    Builder, Action, ActionV, actions_v, staged_v, build_actions, build_staged, finalize_actions,
    cache_v,
};
use crate::config::{spec_settings_outcome, SettingsOutcome, spec_setting, spec_split_slash,
    parse_mod_settings};
use crate::paths::{
    pv, spec_path_hidden, path_hidden, path_has_prefix, path_skip, path_clone, path_eq,
};
use crate::project::{FsEntry, ModDir, DepRoot, LocalDep, RemoteDep, Project};
use crate::rules::paths_v;
use crate::seqs::{lemma_concat_empty, lemma_concat_assoc, lemma_push_singleton, lemma_take_push};

verus! {

/// The sink the front end materializes a plan through: one operation to
/// ensure a destination directory exists, one to place file content from an
/// absolute source path at a relative destination.  The same plan can feed
/// an on-disk tree or an archive writer.
pub trait Out {
    /// Ensure the directory at this relative path exists.
    fn dir(&mut self, path: &Vec<String>) -> Result<(), OutError>;

    /// Place the file at absolute path `src` at the relative destination
    /// `dst`, replacing an earlier file there.
    fn file(&mut self, src: &String, dst: &Vec<String>) -> Result<(), OutError>;
}

/// A sink's failure, with the offending path attached.
pub struct OutError {
    pub path: String,
    pub message: String,
}

/// One entry the walk hands the dispatcher: a destination directory to
/// create, or a file with its absolute source and relative destination.
pub enum EntryV {
    Dir { dst: Seq<Seq<char>> },
    File { src: Seq<char>, dst: Seq<Seq<char>> },
}

/// What one listing entry contributes to a walk rooted at the subdirectory
/// `pre`: nothing unless it lies strictly below `pre` with no hidden
/// component under the walk root.
pub open spec fn walk_one(e: FsEntry, pre: Seq<Seq<char>>) -> Seq<EntryV> {
    let r = pv(e.rel@);
    if pre.is_prefix_of(r) && r.len() > pre.len() && !spec_path_hidden(r.skip(pre.len() as int)) {
        if e.is_dir {
            seq![EntryV::Dir { dst: r.skip(pre.len() as int) }]
        } else {
            seq![EntryV::File { src: e.abs@, dst: r.skip(pre.len() as int) }]
        }
    } else {
        Seq::empty()
    }
}

/// The entries a listing contributes, in listing order.
pub open spec fn walk_list(l: Seq<FsEntry>, pre: Seq<Seq<char>>) -> Seq<EntryV>
    decreases l.len(),
{
    if l.len() == 0 {
        Seq::empty()
    } else {
        walk_one(l[0], pre) + walk_list(l.skip(1), pre)
    }
}

/// One walk: the walk root itself (so the destination root is created),
/// then its surviving entries in order.
pub open spec fn walk_root(l: Seq<FsEntry>, pre: Seq<Seq<char>>) -> Seq<EntryV> {
    seq![EntryV::Dir { dst: Seq::empty() }] + walk_list(l, pre)
}

proof fn lemma_walk_list_snoc(l: Seq<FsEntry>, x: FsEntry, pre: Seq<Seq<char>>)
    ensures
        walk_list(l.push(x), pre) == walk_list(l, pre) + walk_one(x, pre),
    decreases l.len(),
{
    if l.len() == 0 {
        reveal_with_fuel(walk_list, 2);
        assert(l.push(x)[0] == x);
        assert(l.push(x).skip(1) =~= Seq::<FsEntry>::empty());
        assert(walk_list(l.push(x), pre) == walk_one(x, pre) + Seq::<EntryV>::empty());
        lemma_concat_empty(walk_one(x, pre));
        assert(walk_list(l, pre) + walk_one(x, pre) =~= walk_one(x, pre));
    } else {
        assert(l.push(x)[0] == l[0]);
        assert(l.push(x).skip(1) =~= l.skip(1).push(x));
        lemma_walk_list_snoc(l.skip(1), x, pre);
        lemma_concat_assoc(walk_one(l[0], pre), walk_list(l.skip(1), pre), walk_one(x, pre));
    }
}

/// The actions one walked entry adds to the plan.
pub open spec fn unit_actions(cache: Option<Seq<Seq<Seq<char>>>>, u: EntryV) -> Seq<ActionV> {
    match u {
        EntryV::Dir { dst } => seq![ActionV::Dir { dst }],
        EntryV::File { src, dst } => build_actions(cache, src, dst),
    }
}

/// The actions a stream of walked entries adds to the plan, in order.
pub open spec fn units_actions(cache: Option<Seq<Seq<Seq<char>>>>, us: Seq<EntryV>) -> Seq<
    ActionV,
>
    decreases us.len(),
{
    if us.len() == 0 {
        Seq::empty()
    } else {
        unit_actions(cache, us[0]) + units_actions(cache, us.skip(1))
    }
}

/// What one walked entry adds to the passthrough queue.
pub open spec fn unit_staged(u: EntryV) -> Seq<(Seq<char>, Seq<Seq<char>>)> {
    match u {
        EntryV::Dir { .. } => Seq::empty(),
        EntryV::File { src, dst } => build_staged(src, dst),
    }
}

/// What a stream of walked entries adds to the passthrough queue, in order.
pub open spec fn units_staged(us: Seq<EntryV>) -> Seq<(Seq<char>, Seq<Seq<char>>)>
    decreases us.len(),
{
    if us.len() == 0 {
        Seq::empty()
    } else {
        unit_staged(us[0]) + units_staged(us.skip(1))
    }
}

/// The action stream distributes over concatenation of entry streams.
pub proof fn lemma_units_actions_concat(
    cache: Option<Seq<Seq<Seq<char>>>>,
    a: Seq<EntryV>,
    b: Seq<EntryV>,
)
    ensures
        units_actions(cache, a + b) == units_actions(cache, a) + units_actions(cache, b),
    decreases a.len(),
{
    if a.len() == 0 {
        assert(a + b =~= b);
        assert(units_actions(cache, a) + units_actions(cache, b) =~= units_actions(cache, b));
    } else {
        assert((a + b)[0] == a[0]);
        assert((a + b).skip(1) =~= a.skip(1) + b);
        lemma_units_actions_concat(cache, a.skip(1), b);
        lemma_concat_assoc(
            unit_actions(cache, a[0]),
            units_actions(cache, a.skip(1)),
            units_actions(cache, b),
        );
    }
}

/// The passthrough queue distributes over concatenation of entry streams.
pub proof fn lemma_units_staged_concat(a: Seq<EntryV>, b: Seq<EntryV>)
    ensures
        units_staged(a + b) == units_staged(a) + units_staged(b),
    decreases a.len(),
{
    if a.len() == 0 {
        assert(a + b =~= b);
        assert(units_staged(a) + units_staged(b) =~= units_staged(b));
    } else {
        assert((a + b)[0] == a[0]);
        assert((a + b).skip(1) =~= a.skip(1) + b);
        lemma_units_staged_concat(a.skip(1), b);
        lemma_concat_assoc(unit_staged(a[0]), units_staged(a.skip(1)), units_staged(b));
    }
}

/// Walks one root: emits the walk root itself, then every surviving entry,
/// dispatching files through the builder.
fn walk_into(listing: &Vec<FsEntry>, pre: &Vec<String>, b: &mut Builder)
    ensures
        final(b).cache_view() == old(b).cache_view(),
        final(b).rest_built == old(b).rest_built,
        actions_v(final(b).actions@) == actions_v(old(b).actions@) + units_actions(
            old(b).cache_view(),
            walk_root(listing@, pv(pre@)),
        ),
        staged_v(final(b).rest@) == staged_v(old(b).rest@) + units_staged(
            walk_root(listing@, pv(pre@)),
        ),
{
    let ghost cache = b.cache_view();
    let ghost acts0 = actions_v(b.actions@);
    let ghost st0 = staged_v(b.rest@);
    let ghost prev = pv(pre@);
    let root_dir: Vec<String> = Vec::new();
    proof {
        assert(pv(root_dir@) =~= Seq::<Seq<char>>::empty());
    }
    b.dir(root_dir);
    let ghost root_unit = EntryV::Dir { dst: Seq::<Seq<char>>::empty() };
    proof {
        reveal_with_fuel(units_actions, 2);
        reveal_with_fuel(units_staged, 2);
        assert(seq![root_unit].skip(1) =~= Seq::<EntryV>::empty());
        assert(units_actions(cache, seq![root_unit]) =~= seq![
            ActionV::Dir { dst: Seq::<Seq<char>>::empty() },
        ]);
        lemma_push_singleton(acts0, ActionV::Dir { dst: Seq::<Seq<char>>::empty() });
        assert(units_staged(seq![root_unit]) =~= Seq::<(Seq<char>, Seq<Seq<char>>)>::empty());
        lemma_concat_empty(st0);
        assert(walk_list(listing@.take(0), prev) =~= Seq::<EntryV>::empty());
        lemma_concat_empty(seq![root_unit]);
    }
    let n = listing.len();
    let mut i: usize = 0;
    while i < n
        invariant
            i <= n,
            n == listing@.len(),
            prev == pv(pre@),
            b.cache_view() == cache,
            b.rest_built == old(b).rest_built,
            actions_v(b.actions@) == acts0 + units_actions(
                cache,
                seq![root_unit] + walk_list(listing@.take(i as int), prev),
            ),
            staged_v(b.rest@) == st0 + units_staged(
                seq![root_unit] + walk_list(listing@.take(i as int), prev),
            ),
            root_unit == (EntryV::Dir { dst: Seq::<Seq<char>>::empty() }),
        decreases n - i,
    {
        let ghost units_i = seq![root_unit] + walk_list(listing@.take(i as int), prev);
        let ghost e = listing@[i as int];
        proof {
            assert(listing@.take(i + 1 as int) =~= listing@.take(i as int).push(e));
            lemma_walk_list_snoc(listing@.take(i as int), e, prev);
        }
        let entry = &listing[i];
        let keep = path_has_prefix(&entry.rel, pre) && entry.rel.len() > pre.len();
        if keep {
            let strip = path_skip(&entry.rel, pre.len());
            if !path_hidden(&strip) {
                if entry.is_dir {
                    proof {
                        assert(walk_one(e, prev) == seq![EntryV::Dir { dst: pv(strip@) }]);
                    }
                    b.dir(strip);
                    proof {
                        reveal_with_fuel(units_actions, 2);
                        reveal_with_fuel(units_staged, 2);
                        assert(walk_one(e, prev).skip(1) =~= Seq::<EntryV>::empty());
                        lemma_units_actions_concat(cache, units_i, walk_one(e, prev));
                        assert(units_actions(cache, walk_one(e, prev)) =~= seq![
                            ActionV::Dir { dst: pv(e.rel@).skip(prev.len() as int) },
                        ]);
                        lemma_push_singleton(
                            acts0 + units_actions(cache, units_i),
                            ActionV::Dir { dst: pv(e.rel@).skip(prev.len() as int) },
                        );
                        lemma_concat_assoc(
                            acts0,
                            units_actions(cache, units_i),
                            units_actions(cache, walk_one(e, prev)),
                        );
                        lemma_units_staged_concat(units_i, walk_one(e, prev));
                        assert(units_staged(walk_one(e, prev)) =~= Seq::<
                            (Seq<char>, Seq<Seq<char>>),
                        >::empty());
                        lemma_concat_empty(units_staged(units_i));
                        lemma_concat_assoc(
                            seq![root_unit],
                            walk_list(listing@.take(i as int), prev),
                            walk_one(e, prev),
                        );
                    }
                } else {
                    proof {
                        assert(walk_one(e, prev) == seq![
                            EntryV::File { src: e.abs@, dst: pv(strip@) },
                        ]);
                    }
                    b.build(entry.abs.clone(), strip);
                    proof {
                        reveal_with_fuel(units_actions, 2);
                        reveal_with_fuel(units_staged, 2);
                        assert(walk_one(e, prev).skip(1) =~= Seq::<EntryV>::empty());
                        lemma_units_actions_concat(cache, units_i, walk_one(e, prev));
                        assert(units_actions(cache, walk_one(e, prev)) =~= build_actions(
                            cache,
                            e.abs@,
                            pv(e.rel@).skip(prev.len() as int),
                        ));
                        lemma_concat_assoc(
                            acts0,
                            units_actions(cache, units_i),
                            units_actions(cache, walk_one(e, prev)),
                        );
                        lemma_units_staged_concat(units_i, walk_one(e, prev));
                        assert(units_staged(walk_one(e, prev)) =~= build_staged(
                            e.abs@,
                            pv(e.rel@).skip(prev.len() as int),
                        ));
                        lemma_concat_assoc(
                            st0,
                            units_staged(units_i),
                            units_staged(walk_one(e, prev)),
                        );
                        lemma_concat_assoc(
                            acts0,
                            units_actions(cache, units_i),
                            units_actions(cache, walk_one(e, prev)),
                        );
                        lemma_concat_assoc(
                            seq![root_unit],
                            walk_list(listing@.take(i as int), prev),
                            walk_one(e, prev),
                        );
                    }
                }
            } else {
                proof {
                    assert(walk_one(e, prev) =~= Seq::<EntryV>::empty());
                    lemma_concat_empty(walk_list(listing@.take(i as int), prev));
                    assert(walk_list(listing@.take(i + 1 as int), prev) == walk_list(
                        listing@.take(i as int),
                        prev,
                    ));
                }
            }
        } else {
            proof {
                assert(walk_one(e, prev) =~= Seq::<EntryV>::empty());
                lemma_concat_empty(walk_list(listing@.take(i as int), prev));
                assert(walk_list(listing@.take(i + 1 as int), prev) == walk_list(
                    listing@.take(i as int),
                    prev,
                ));
            }
        }
        i = i + 1;
    }
    proof {
        assert(listing@.take(n as int) =~= listing@);
    }
}

/// Whether the listing holds a file directly named `name` at the root.
pub open spec fn spec_has_file(l: Seq<FsEntry>, name: Seq<char>) -> bool {
    exists|i: int| 0 <= i < l.len() && pv(l[i].rel@) == seq![name] && !l[i].is_dir
}

/// Whether the listing holds a directory at relative path `p`; the empty
/// path is the root itself, which exists.
pub open spec fn spec_has_dir_at(l: Seq<FsEntry>, p: Seq<Seq<char>>) -> bool {
    p.len() == 0 || exists|i: int| 0 <= i < l.len() && pv(l[i].rel@) == p && l[i].is_dir
}

fn has_file(listing: &Vec<FsEntry>, name: &str) -> (r: bool)
    ensures
        r == spec_has_file(listing@, name@),
{
    let mut i: usize = 0;
    while i < listing.len()
        invariant
            i <= listing@.len(),
            forall|j: int|
                0 <= j < i ==> !(pv(listing@[j].rel@) == seq![name@] && !listing@[j].is_dir),
        decreases listing@.len() - i,
    {
        let e = &listing[i];
        if !e.is_dir && e.rel.len() == 1 && crate::text::str_eq(e.rel[0].as_str(), name) {
            proof {
                assert(pv(e.rel@) =~= seq![name@]);
            }
            return true;
        }
        proof {
            let rv = pv(listing@[i as int].rel@);
            assert(rv.len() == listing@[i as int].rel@.len());
            if listing@[i as int].rel@.len() == 1 {
                assert(rv[0] == listing@[i as int].rel@[0]@);
            }
            assert(seq![name@].len() == 1);
        }
        i = i + 1;
    }
    false
}

fn has_dir_at(listing: &Vec<FsEntry>, p: &Vec<String>) -> (r: bool)
    ensures
        r == spec_has_dir_at(listing@, pv(p@)),
{
    if p.len() == 0 {
        return true;
    }
    let mut i: usize = 0;
    while i < listing.len()
        invariant
            p@.len() > 0,
            i <= listing@.len(),
            forall|j: int|
                0 <= j < i ==> !(pv(listing@[j].rel@) == pv(p@) && listing@[j].is_dir),
        decreases listing@.len() - i,
    {
        let e = &listing[i];
        if e.is_dir && path_eq(&e.rel, p) {
            return true;
        }
        i = i + 1;
    }
    false
}

/// The walk roots a legacy settings file names: its source directory, then
/// its output directory where that is distinct — each only where present.
pub open spec fn spec_legacy_roots(l: Seq<FsEntry>, text: Seq<char>) -> Seq<Seq<Seq<char>>> {
    let s = spec_split_slash(spec_setting(text, "source_dir"@).unwrap());
    let o = spec_split_slash(spec_setting(text, "output_dir"@).unwrap());
    (if spec_has_dir_at(l, s) {
        seq![s]
    } else {
        Seq::<Seq<Seq<char>>>::empty()
    }) + (if spec_has_dir_at(l, o) && o != s {
        seq![o]
    } else {
        Seq::<Seq<Seq<char>>>::empty()
    })
}

/// The conventional source subdirectories, every one that is present.
pub open spec fn spec_conventional(l: Seq<FsEntry>) -> Seq<Seq<Seq<char>>> {
    (if spec_has_dir_at(l, seq!["source"@]) {
        seq![seq!["source"@]]
    } else {
        Seq::<Seq<Seq<char>>>::empty()
    }) + (if spec_has_dir_at(l, seq!["output"@]) {
        seq![seq!["output"@]]
    } else {
        Seq::<Seq<Seq<char>>>::empty()
    }) + (if spec_has_dir_at(l, seq!["src"@]) {
        seq![seq!["src"@]]
    } else {
        Seq::<Seq<Seq<char>>>::empty()
    })
}

/// Source discovery for one dependency root, one ordered heuristic at a
/// time, the first that fits deciding alone: content already built (the
/// update marker file is present) walks the root as-is; a readable legacy
/// settings file walks the directories it names; otherwise every
/// conventional subdirectory found is walked; with none, the root itself.
pub open spec fn spec_discover(d: ModDir) -> Seq<Seq<Seq<char>>> {
    if spec_has_file(d.listing@, ".update_timestamp"@) {
        seq![Seq::<Seq<char>>::empty()]
    } else if d.settings is Some && spec_settings_outcome(d.settings.unwrap()@) is Readable {
        spec_legacy_roots(d.listing@, d.settings.unwrap()@)
    } else {
        let conv = spec_conventional(d.listing@);
        if conv.len() > 0 {
            conv
        } else {
            seq![Seq::<Seq<char>>::empty()]
        }
    }
}

fn single_component(name: &str) -> (r: Vec<String>)
    ensures
        pv(r@) == seq![name@],
{
    let mut r: Vec<String> = Vec::new();
    r.push(String::from_str(name));
    proof {
        assert(pv(r@) =~= seq![name@]);
    }
    r
}

fn conventional_roots(listing: &Vec<FsEntry>) -> (r: Vec<Vec<String>>)
    ensures
        paths_v(r@) == spec_conventional(listing@),
{
    let mut r: Vec<Vec<String>> = Vec::new();
    let source = single_component("source");
    let output = single_component("output");
    let src = single_component("src");
    if has_dir_at(listing, &source) {
        r.push(source);
    }
    if has_dir_at(listing, &output) {
        r.push(output);
    }
    if has_dir_at(listing, &src) {
        r.push(src);
    }
    proof {
        assert(paths_v(r@) =~= spec_conventional(listing@));
    }
    r
}

fn root_only() -> (r: Vec<Vec<String>>)
    ensures
        paths_v(r@) == seq![Seq::<Seq<char>>::empty()],
{
    let mut r: Vec<Vec<String>> = Vec::new();
    r.push(Vec::new());
    proof {
        assert(paths_v(r@) =~~= seq![Seq::<Seq<char>>::empty()]);
    }
    r
}

/// Runs source discovery over one dependency root's snapshot.
pub fn discover(d: &ModDir) -> (r: Vec<Vec<String>>)
    ensures
        paths_v(r@) == spec_discover(*d),
{
    if has_file(&d.listing, ".update_timestamp") {
        return root_only();
    }
    match &d.settings {
        Some(text) => {
            match parse_mod_settings(text.as_str()) {
                Ok(c) => {
                    let so = match c.source_output_dir {
                        Some(so) => so,
                        None => {
                            proof {
                                assert(false);
                            }
                            unreached()
                        },
                    };
                    let (s, o) = so;
                    let mut r: Vec<Vec<String>> = Vec::new();
                    let s_present = has_dir_at(&d.listing, &s);
                    let o_present = has_dir_at(&d.listing, &o);
                    let distinct = !path_eq(&o, &s);
                    if s_present {
                        r.push(s);
                    }
                    if o_present && distinct {
                        r.push(o);
                    }
                    proof {
                        assert(paths_v(r@) =~= spec_legacy_roots(
                            d.listing@,
                            d.settings.unwrap()@,
                        ));
                    }
                    r
                },
                Err(_) => {
                    let conv = conventional_roots(&d.listing);
                    if conv.len() > 0 {
                        conv
                    } else {
                        root_only()
                    }
                },
            }
        },
        None => {
            let conv = conventional_roots(&d.listing);
            if conv.len() > 0 {
                conv
            } else {
                root_only()
            }
        },
    }
}

/// The walks a discovery result prescribes, in order.
pub open spec fn roots_units(l: Seq<FsEntry>, roots: Seq<Seq<Seq<char>>>) -> Seq<EntryV>
    decreases roots.len(),
{
    if roots.len() == 0 {
        Seq::empty()
    } else {
        walk_root(l, roots[0]) + roots_units(l, roots.skip(1))
    }
}

proof fn lemma_roots_units_snoc(l: Seq<FsEntry>, roots: Seq<Seq<Seq<char>>>, r: Seq<Seq<char>>)
    ensures
        roots_units(l, roots.push(r)) == roots_units(l, roots) + walk_root(l, r),
    decreases roots.len(),
{
    if roots.len() == 0 {
        reveal_with_fuel(roots_units, 2);
        assert(roots.push(r)[0] == r);
        assert(roots.push(r).skip(1) =~= Seq::<Seq<Seq<char>>>::empty());
        lemma_concat_empty(walk_root(l, r));
        assert(roots_units(l, roots) + walk_root(l, r) =~= walk_root(l, r));
    } else {
        assert(roots.push(r)[0] == roots[0]);
        assert(roots.push(r).skip(1) =~= roots.skip(1).push(r));
        lemma_roots_units_snoc(l, roots.skip(1), r);
        lemma_concat_assoc(walk_root(l, roots[0]), roots_units(l, roots.skip(1)), walk_root(l, r));
    }
}

/// The entries one plain dependency directory contributes: every walk its
/// discovery prescribes.
pub open spec fn discovery_units(d: ModDir) -> Seq<EntryV> {
    roots_units(d.listing@, spec_discover(d))
}

/// The entries one resolved dependency contributes: nothing when missing, a
/// discovered walk for a plain tree, and a full nested merge for a project.
pub open spec fn dep_units(r: DepRoot) -> Seq<EntryV>
    decreases r,
{
    match r {
        DepRoot::Missing => Seq::empty(),
        DepRoot::Tree(d) => discovery_units(d),
        DepRoot::Project(p) => project_units(*p),
    }
}

/// The entries the local dependencies contribute, in order.
pub open spec fn local_units(s: Seq<LocalDep>) -> Seq<EntryV>
    decreases s,
{
    if s.len() == 0 {
        Seq::empty()
    } else {
        dep_units(s[0].root) + local_units(s.skip(1))
    }
}

/// The entries the remote-cached dependencies contribute, in order.
pub open spec fn remote_units(s: Seq<RemoteDep>) -> Seq<EntryV>
    decreases s,
{
    if s.len() == 0 {
        Seq::empty()
    } else {
        dep_units(s[0].root) + remote_units(s.skip(1))
    }
}

/// The entries the project's own source contributes, merged last so that it
/// overrides every dependency: with an explicit override, the named output
/// directory when present, else the named source directory; without one,
/// the conventional source subdirectory.
pub open spec fn own_units(p: Project) -> Seq<EntryV> {
    let l = p.root.listing@;
    match p.config.source_output_dir {
        Some(so) => {
            let s = pv(so.0@);
            let o = pv(so.1@);
            if spec_has_dir_at(l, o) {
                walk_root(l, o)
            } else if spec_has_dir_at(l, s) {
                walk_root(l, s)
            } else {
                Seq::empty()
            }
        },
        None => {
            if spec_has_dir_at(l, seq!["src"@]) {
                walk_root(l, seq!["src"@])
            } else {
                Seq::empty()
            }
        },
    }
}

/// Every entry one compile pass stages, in merge order: each dependency,
/// nested projects depth-first, then the project's own source.
pub open spec fn project_units(p: Project) -> Seq<EntryV>
    decreases p,
{
    local_units(p.local_deps@) + remote_units(p.remote_deps@) + own_units(p)
}

proof fn lemma_local_units_snoc(s: Seq<LocalDep>, d: LocalDep)
    ensures
        local_units(s.push(d)) == local_units(s) + dep_units(d.root),
    decreases s.len(),
{
    if s.len() == 0 {
        reveal_with_fuel(local_units, 2);
        assert(s.push(d)[0] == d);
        assert(s.push(d).skip(1) =~= Seq::<LocalDep>::empty());
        lemma_concat_empty(dep_units(d.root));
        assert(local_units(s) + dep_units(d.root) =~= dep_units(d.root));
    } else {
        assert(s.push(d)[0] == s[0]);
        assert(s.push(d).skip(1) =~= s.skip(1).push(d));
        lemma_local_units_snoc(s.skip(1), d);
        lemma_concat_assoc(dep_units(s[0].root), local_units(s.skip(1)), dep_units(d.root));
    }
}

proof fn lemma_remote_units_snoc(s: Seq<RemoteDep>, d: RemoteDep)
    ensures
        remote_units(s.push(d)) == remote_units(s) + dep_units(d.root),
    decreases s.len(),
{
    if s.len() == 0 {
        reveal_with_fuel(remote_units, 2);
        assert(s.push(d)[0] == d);
        assert(s.push(d).skip(1) =~= Seq::<RemoteDep>::empty());
        lemma_concat_empty(dep_units(d.root));
        assert(remote_units(s) + dep_units(d.root) =~= dep_units(d.root));
    } else {
        assert(s.push(d)[0] == s[0]);
        assert(s.push(d).skip(1) =~= s.skip(1).push(d));
        lemma_remote_units_snoc(s.skip(1), d);
        lemma_concat_assoc(dep_units(s[0].root), remote_units(s.skip(1)), dep_units(d.root));
    }
}

/// Stages every walk of one discovered dependency directory.
fn discover_into(d: &ModDir, b: &mut Builder)
    ensures
        final(b).cache_view() == old(b).cache_view(),
        final(b).rest_built == old(b).rest_built,
        actions_v(final(b).actions@) == actions_v(old(b).actions@) + units_actions(
            old(b).cache_view(),
            discovery_units(*d),
        ),
        staged_v(final(b).rest@) == staged_v(old(b).rest@) + units_staged(discovery_units(*d)),
{
    let ghost cache = b.cache_view();
    let ghost acts0 = actions_v(b.actions@);
    let ghost st0 = staged_v(b.rest@);
    let roots = discover(d);
    let ghost rootsv = paths_v(roots@);
    let n = roots.len();
    let mut k: usize = 0;
    proof {
        assert(roots_units(d.listing@, rootsv.take(0)) =~= Seq::<EntryV>::empty());
        lemma_concat_empty(acts0);
        lemma_concat_empty(st0);
    }
    while k < n
        invariant
            k <= n,
            n == roots@.len(),
            rootsv == paths_v(roots@),
            b.cache_view() == cache,
            b.rest_built == old(b).rest_built,
            actions_v(b.actions@) == acts0 + units_actions(
                cache,
                roots_units(d.listing@, rootsv.take(k as int)),
            ),
            staged_v(b.rest@) == st0 + units_staged(
                roots_units(d.listing@, rootsv.take(k as int)),
            ),
        decreases n - k,
    {
        let ghost units_k = roots_units(d.listing@, rootsv.take(k as int));
        walk_into(&d.listing, &roots[k], b);
        proof {
            assert(pv(roots@[k as int]@) == rootsv[k as int]);
            lemma_take_push(rootsv, k as int);
            lemma_roots_units_snoc(d.listing@, rootsv.take(k as int), rootsv[k as int]);
            lemma_units_actions_concat(
                cache,
                units_k,
                walk_root(d.listing@, rootsv[k as int]),
            );
            lemma_concat_assoc(
                acts0,
                units_actions(cache, units_k),
                units_actions(cache, walk_root(d.listing@, rootsv[k as int])),
            );
            lemma_units_staged_concat(units_k, walk_root(d.listing@, rootsv[k as int]));
            lemma_concat_assoc(
                st0,
                units_staged(units_k),
                units_staged(walk_root(d.listing@, rootsv[k as int])),
            );
        }
        k = k + 1;
    }
    proof {
        assert(rootsv.take(n as int) =~= rootsv);
        assert(rootsv == spec_discover(*d));
    }
}

/// Stages one resolved dependency: a nested project merges depth-first.
fn dep_into(root: &DepRoot, b: &mut Builder)
    ensures
        final(b).cache_view() == old(b).cache_view(),
        final(b).rest_built == old(b).rest_built,
        actions_v(final(b).actions@) == actions_v(old(b).actions@) + units_actions(
            old(b).cache_view(),
            dep_units(*root),
        ),
        staged_v(final(b).rest@) == staged_v(old(b).rest@) + units_staged(dep_units(*root)),
    decreases *root,
{
    match root {
        DepRoot::Missing => {
            proof {
                lemma_concat_empty(actions_v(b.actions@));
                lemma_concat_empty(staged_v(b.rest@));
            }
        },
        DepRoot::Tree(d) => {
            discover_into(d, b);
        },
        DepRoot::Project(p) => {
            compile_into(p, b);
        },
    }
}

/// Stages one whole project, dependencies first and depth-first, its own
/// source last, in merge order.
pub fn compile_into(p: &Project, b: &mut Builder)
    ensures
        final(b).cache_view() == old(b).cache_view(),
        final(b).rest_built == old(b).rest_built,
        actions_v(final(b).actions@) == actions_v(old(b).actions@) + units_actions(
            old(b).cache_view(),
            project_units(*p),
        ),
        staged_v(final(b).rest@) == staged_v(old(b).rest@) + units_staged(project_units(*p)),
    decreases *p,
{
    let ghost cache = b.cache_view();
    let ghost acts0 = actions_v(b.actions@);
    let ghost st0 = staged_v(b.rest@);
    let nl = p.local_deps.len();
    let mut i: usize = 0;
    proof {
        assert(local_units(p.local_deps@.take(0)) =~= Seq::<EntryV>::empty());
        lemma_concat_empty(acts0);
        lemma_concat_empty(st0);
    }
    while i < nl
        invariant
            i <= nl,
            nl == p.local_deps@.len(),
            b.cache_view() == cache,
            b.rest_built == old(b).rest_built,
            actions_v(b.actions@) == acts0 + units_actions(
                cache,
                local_units(p.local_deps@.take(i as int)),
            ),
            staged_v(b.rest@) == st0 + units_staged(local_units(p.local_deps@.take(i as int))),
        decreases nl - i,
    {
        let ghost units_i = local_units(p.local_deps@.take(i as int));
        dep_into(&p.local_deps[i].root, b);
        proof {
            lemma_take_push(p.local_deps@, i as int);
            lemma_local_units_snoc(p.local_deps@.take(i as int), p.local_deps@[i as int]);
            lemma_units_actions_concat(
                cache,
                units_i,
                dep_units(p.local_deps@[i as int].root),
            );
            lemma_concat_assoc(
                acts0,
                units_actions(cache, units_i),
                units_actions(cache, dep_units(p.local_deps@[i as int].root)),
            );
            lemma_units_staged_concat(units_i, dep_units(p.local_deps@[i as int].root));
            lemma_concat_assoc(
                st0,
                units_staged(units_i),
                units_staged(dep_units(p.local_deps@[i as int].root)),
            );
        }
        i = i + 1;
    }
    let ghost lunits = local_units(p.local_deps@);
    proof {
        assert(p.local_deps@.take(nl as int) =~= p.local_deps@);
        assert(remote_units(p.remote_deps@.take(0)) =~= Seq::<EntryV>::empty());
        lemma_concat_empty(acts0 + units_actions(cache, lunits));
        lemma_concat_empty(st0 + units_staged(lunits));
    }
    let nr = p.remote_deps.len();
    let mut k: usize = 0;
    while k < nr
        invariant
            k <= nr,
            nr == p.remote_deps@.len(),
            lunits == local_units(p.local_deps@),
            b.cache_view() == cache,
            b.rest_built == old(b).rest_built,
            actions_v(b.actions@) == acts0 + units_actions(cache, lunits) + units_actions(
                cache,
                remote_units(p.remote_deps@.take(k as int)),
            ),
            staged_v(b.rest@) == st0 + units_staged(lunits) + units_staged(
                remote_units(p.remote_deps@.take(k as int)),
            ),
        decreases nr - k,
    {
        let ghost units_k = remote_units(p.remote_deps@.take(k as int));
        dep_into(&p.remote_deps[k].root, b);
        proof {
            lemma_take_push(p.remote_deps@, k as int);
            lemma_remote_units_snoc(p.remote_deps@.take(k as int), p.remote_deps@[k as int]);
            lemma_units_actions_concat(
                cache,
                units_k,
                dep_units(p.remote_deps@[k as int].root),
            );
            lemma_concat_assoc(
                acts0 + units_actions(cache, lunits),
                units_actions(cache, units_k),
                units_actions(cache, dep_units(p.remote_deps@[k as int].root)),
            );
            lemma_units_staged_concat(units_k, dep_units(p.remote_deps@[k as int].root));
            lemma_concat_assoc(
                st0 + units_staged(lunits),
                units_staged(units_k),
                units_staged(dep_units(p.remote_deps@[k as int].root)),
            );
        }
        k = k + 1;
    }
    let ghost runits = remote_units(p.remote_deps@);
    proof {
        assert(p.remote_deps@.take(nr as int) =~= p.remote_deps@);
    }
    match &p.config.source_output_dir {
        Some(so) => {
            let s = &so.0;
            let o = &so.1;
            if has_dir_at(&p.root.listing, o) {
                walk_into(&p.root.listing, o, b);
            } else if has_dir_at(&p.root.listing, s) {
                walk_into(&p.root.listing, s, b);
            } else {
                proof {
                    lemma_concat_empty(
                        acts0 + units_actions(cache, lunits) + units_actions(cache, runits),
                    );
                    lemma_concat_empty(st0 + units_staged(lunits) + units_staged(runits));
                }
            }
        },
        None => {
            let src = single_component("src");
            if has_dir_at(&p.root.listing, &src) {
                walk_into(&p.root.listing, &src, b);
            } else {
                proof {
                    lemma_concat_empty(
                        acts0 + units_actions(cache, lunits) + units_actions(cache, runits),
                    );
                    lemma_concat_empty(st0 + units_staged(lunits) + units_staged(runits));
                }
            }
        },
    }
    proof {
        lemma_units_actions_concat(cache, lunits, runits);
        lemma_units_staged_concat(lunits, runits);
        lemma_units_actions_concat(cache, lunits + runits, own_units(*p));
        lemma_units_staged_concat(lunits + runits, own_units(*p));
        lemma_concat_assoc(acts0, units_actions(cache, lunits), units_actions(cache, runits));
        lemma_concat_assoc(st0, units_staged(lunits), units_staged(runits));
        lemma_concat_assoc(
            acts0,
            units_actions(cache, lunits + runits),
            units_actions(cache, own_units(*p)),
        );
        lemma_concat_assoc(
            st0,
            units_staged(lunits + runits),
            units_staged(own_units(*p)),
        );
    }
}

/// The whole plan of one compile pass over the given previous-output cache:
/// every staged action in merge order, then the finalize pass linking every
/// passthrough file.
pub open spec fn spec_plan(p: Project, cache: Option<Seq<Seq<Seq<char>>>>) -> Seq<ActionV> {
    units_actions(cache, project_units(p)) + finalize_actions(
        units_staged(project_units(p)),
    )
}

/// Compiles one project into its output plan: dependencies merge in
/// resolution order, nested projects depth-first, the project's own source
/// last; rule-matched files build at once, reusing the previous output root
/// where it already holds every expected artifact; passthrough files are
/// linked in one final pass.
pub fn compile(p: &Project, cache: Option<Vec<Vec<String>>>) -> (r: Vec<Action>)
    ensures
        actions_v(r@) == spec_plan(*p, cache_v(cache)),
{
    let ghost cachev = cache_v(cache);
    let mut b = Builder::new(cache);
    proof {
        assert(actions_v(b.actions@) =~= Seq::<ActionV>::empty());
        assert(staged_v(b.rest@) =~= Seq::<(Seq<char>, Seq<Seq<char>>)>::empty());
    }
    compile_into(p, &mut b);
    proof {
        assert(Seq::<ActionV>::empty() + units_actions(cachev, project_units(*p))
            =~= units_actions(cachev, project_units(*p)));
        assert(Seq::<(Seq<char>, Seq<Seq<char>>)>::empty() + units_staged(project_units(*p))
            =~= units_staged(project_units(*p)));
    }
    let fin = b.build_rest();
    proof {
        assert(fin is Ok);
    }
    let Builder { actions, .. } = b;
    actions
}

} // verus!
