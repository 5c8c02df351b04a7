//! The engine's global guarantees, proved over whole compile plans: a
//! covering cache runs no external command; a destination supplied by
//! several dependencies ends up linked from the last one in merge order;
//! and no hidden-marked path is ever written.
use vstd::prelude::*;

use crate::builder::{ActionV, build_actions, finalize_actions, covered};
use crate::compile::{
    EntryV, unit_actions, units_actions, unit_staged, units_staged, project_units, spec_plan,
};
use crate::paths::{spec_hidden, spec_path_hidden, spec_ext, spec_set_ext, spec_rlast_dot};
use crate::project::Project;
use crate::rules::spec_rule;

verus! {

/// Whether every rule-matched file of the stream finds all its expected
/// artifacts in the previous output root.
pub open spec fn all_outputs_cached(cache: Option<Seq<Seq<Seq<char>>>>, us: Seq<EntryV>) -> bool {
    forall|i: int|
        0 <= i < us.len() ==> match #[trigger] us[i] {
            EntryV::File { src, dst } => match spec_rule(src, dst) {
                Some(r) => covered(cache, r.0),
                None => true,
            },
            EntryV::Dir { .. } => true,
        }
}

proof fn lemma_units_actions_no_run(cache: Option<Seq<Seq<Seq<char>>>>, us: Seq<EntryV>)
    requires
        all_outputs_cached(cache, us),
    ensures
        forall|i: int|
            0 <= i < units_actions(cache, us).len() ==> !(#[trigger] units_actions(cache, us)[i]
                is Run),
    decreases us.len(),
{
    if us.len() > 0 {
        assert(forall|j: int| 0 <= j < us.skip(1).len() ==> us.skip(1)[j] == us[j + 1]);
        lemma_units_actions_no_run(cache, us.skip(1));
        let head = unit_actions(cache, us[0]);
        assert(forall|i: int| 0 <= i < head.len() ==> !(#[trigger] head[i] is Run)) by {
            match us[0] {
                EntryV::Dir { dst } => {},
                EntryV::File { src, dst } => {
                    match spec_rule(src, dst) {
                        Some(r) => {
                            assert(covered(cache, r.0));
                        },
                        None => {},
                    }
                },
            }
        }
    }
}

/// Law: a compile whose previous output root already holds every expected
/// rule artifact re-invokes no external command — its plan holds no run
/// step at all, only links.
pub proof fn lemma_idempotent_compile_runs_nothing(
    p: Project,
    cache: Option<Seq<Seq<Seq<char>>>>,
)
    requires
        all_outputs_cached(cache, project_units(p)),
    ensures
        forall|i: int|
            0 <= i < spec_plan(p, cache).len() ==> !(#[trigger] spec_plan(p, cache)[i] is Run),
{
    let us = project_units(p);
    let acts = units_actions(cache, us);
    let fin = finalize_actions(units_staged(us));
    lemma_units_actions_no_run(cache, us);
    assert forall|i: int| 0 <= i < spec_plan(p, cache).len() implies !(#[trigger] spec_plan(
        p,
        cache,
    )[i] is Run) by {
        if i < acts.len() {
            assert(spec_plan(p, cache)[i] == acts[i]);
        } else {
            assert(spec_plan(p, cache)[i] == fin[i - acts.len()]);
        }
    }
}

/// Law: a cache hit links every expected artifact from the previous root
/// and runs nothing; only a miss runs the rule's command, exactly once.
pub proof fn lemma_cache_decides_build(
    cache: Option<Seq<Seq<Seq<char>>>>,
    src: Seq<char>,
    dst: Seq<Seq<char>>,
)
    requires
        spec_rule(src, dst) is Some,
    ensures
        covered(cache, spec_rule(src, dst).unwrap().0) ==> build_actions(cache, src, dst).len()
            == spec_rule(src, dst).unwrap().0.len() && (forall|i: int|
            0 <= i < build_actions(cache, src, dst).len() ==> #[trigger] build_actions(
                cache,
                src,
                dst,
            )[i] == (ActionV::LinkCache { out: spec_rule(src, dst).unwrap().0[i] })),
        !covered(cache, spec_rule(src, dst).unwrap().0) ==> build_actions(cache, src, dst)
            == seq![
            ActionV::Run {
                cmd: spec_rule(src, dst).unwrap().1,
                outputs: spec_rule(src, dst).unwrap().0,
            },
        ],
{
}

/// The source each destination is finally hard-linked from, over the plan's
/// passthrough placements: later placements replace earlier ones.
pub open spec fn link_map(acts: Seq<ActionV>) -> Map<Seq<Seq<char>>, Seq<char>>
    decreases acts.len(),
{
    if acts.len() == 0 {
        Map::empty()
    } else {
        let m = link_map(acts.drop_last());
        match acts.last() {
            ActionV::LinkSource { src, dst } => m.insert(dst, src),
            _ => m,
        }
    }
}

/// The last staged pair supplying destination `d`, if any.
pub open spec fn spec_last_src(
    pairs: Seq<(Seq<char>, Seq<Seq<char>>)>,
    d: Seq<Seq<char>>,
) -> Option<Seq<char>>
    decreases pairs.len(),
{
    if pairs.len() == 0 {
        None
    } else if pairs.last().1 == d {
        Some(pairs.last().0)
    } else {
        spec_last_src(pairs.drop_last(), d)
    }
}

proof fn lemma_link_map_of_finalize(pairs: Seq<(Seq<char>, Seq<Seq<char>>)>, d: Seq<Seq<char>>)
    ensures
        match spec_last_src(pairs, d) {
            Some(src) => link_map(finalize_actions(pairs)).contains_key(d) && link_map(
                finalize_actions(pairs),
            )[d] == src,
            None => !link_map(finalize_actions(pairs)).contains_key(d),
        },
    decreases pairs.len(),
{
    let fin = finalize_actions(pairs);
    if pairs.len() == 0 {
    } else {
        assert(fin.drop_last() =~= finalize_actions(pairs.drop_last()));
        assert(fin.last() == (ActionV::LinkSource { src: pairs.last().0, dst: pairs.last().1 }));
        lemma_link_map_of_finalize(pairs.drop_last(), d);
    }
}

proof fn lemma_link_map_skips_builds(a: Seq<ActionV>, b: Seq<ActionV>)
    requires
        forall|i: int| 0 <= i < a.len() ==> !(#[trigger] a[i] is LinkSource),
    ensures
        link_map(a + b) == link_map(b),
    decreases b.len(),
{
    if b.len() == 0 {
        assert(a + b =~= a);
        lemma_link_map_no_links(a);
        assert(link_map(a + b) =~= link_map(b));
    } else {
        assert((a + b).drop_last() =~= a + b.drop_last());
        assert((a + b).last() == b.last());
        lemma_link_map_skips_builds(a, b.drop_last());
    }
}

proof fn lemma_link_map_no_links(a: Seq<ActionV>)
    requires
        forall|i: int| 0 <= i < a.len() ==> !(#[trigger] a[i] is LinkSource),
    ensures
        link_map(a) == Map::<Seq<Seq<char>>, Seq<char>>::empty(),
    decreases a.len(),
{
    if a.len() > 0 {
        assert(!(a[a.len() - 1] is LinkSource));
        assert(forall|i: int| 0 <= i < a.drop_last().len() ==> a.drop_last()[i] == a[i]);
        lemma_link_map_no_links(a.drop_last());
    }
}

proof fn lemma_units_actions_no_linksource(cache: Option<Seq<Seq<Seq<char>>>>, us: Seq<EntryV>)
    ensures
        forall|i: int|
            0 <= i < units_actions(cache, us).len() ==> !(#[trigger] units_actions(cache, us)[i]
                is LinkSource),
    decreases us.len(),
{
    if us.len() > 0 {
        lemma_units_actions_no_linksource(cache, us.skip(1));
        let head = unit_actions(cache, us[0]);
        assert(forall|i: int| 0 <= i < head.len() ==> !(#[trigger] head[i] is LinkSource)) by {
            match us[0] {
                EntryV::Dir { dst } => {},
                EntryV::File { src, dst } => {},
            }
        }
    }
}

/// Law: a relative destination supplied as a passthrough file by more than
/// one dependency ends up, in the final plan, hard-linked from the source
/// of the last dependency in merge order that supplies it — the plan's
/// build steps never place a passthrough link, and the finalize pass links
/// in merge order, later placements replacing earlier ones.
pub proof fn lemma_last_dependency_wins(
    p: Project,
    cache: Option<Seq<Seq<Seq<char>>>>,
    d: Seq<Seq<char>>,
)
    requires
        spec_last_src(units_staged(project_units(p)), d) is Some,
    ensures
        link_map(spec_plan(p, cache)).contains_key(d),
        link_map(spec_plan(p, cache))[d] == spec_last_src(
            units_staged(project_units(p)),
            d,
        ).unwrap(),
{
    let us = project_units(p);
    lemma_units_actions_no_linksource(cache, us);
    lemma_link_map_skips_builds(
        units_actions(cache, us),
        finalize_actions(units_staged(us)),
    );
    lemma_link_map_of_finalize(units_staged(us), d);
}

/// Whether a walked entry's destination is free of hidden components.
pub open spec fn unit_not_hidden(u: EntryV) -> bool {
    match u {
        EntryV::Dir { dst } => !spec_path_hidden(dst),
        EntryV::File { src, dst } => !spec_path_hidden(dst),
    }
}

/// Whether every entry of the stream has a clean destination.
pub open spec fn units_not_hidden(us: Seq<EntryV>) -> bool {
    forall|i: int| 0 <= i < us.len() ==> unit_not_hidden(#[trigger] us[i])
}

proof fn lemma_walk_list_not_hidden(l: Seq<crate::project::FsEntry>, pre: Seq<Seq<char>>)
    ensures
        units_not_hidden(crate::compile::walk_list(l, pre)),
    decreases l.len(),
{
    if l.len() > 0 {
        lemma_walk_list_not_hidden(l.skip(1), pre);
        let head = crate::compile::walk_one(l[0], pre);
        let tail = crate::compile::walk_list(l.skip(1), pre);
        assert(forall|i: int| 0 <= i < head.len() ==> unit_not_hidden(#[trigger] head[i]));
        assert forall|i: int|
            0 <= i < crate::compile::walk_list(l, pre).len() implies unit_not_hidden(
            #[trigger] crate::compile::walk_list(l, pre)[i],
        ) by {
            if i < head.len() {
                assert(crate::compile::walk_list(l, pre)[i] == head[i]);
            } else {
                assert(crate::compile::walk_list(l, pre)[i] == tail[i - head.len()]);
            }
        }
    }
}

proof fn lemma_walk_root_not_hidden(l: Seq<crate::project::FsEntry>, pre: Seq<Seq<char>>)
    ensures
        units_not_hidden(crate::compile::walk_root(l, pre)),
{
    lemma_walk_list_not_hidden(l, pre);
    let w = crate::compile::walk_root(l, pre);
    let tail = crate::compile::walk_list(l, pre);
    assert forall|i: int| 0 <= i < w.len() implies unit_not_hidden(#[trigger] w[i]) by {
        if i == 0 {
            assert(w[0] == (EntryV::Dir { dst: Seq::<Seq<char>>::empty() }));
            assert(!spec_path_hidden(Seq::<Seq<char>>::empty()));
        } else {
            assert(w[i] == tail[i - 1]);
        }
    }
}

proof fn lemma_roots_units_not_hidden(
    l: Seq<crate::project::FsEntry>,
    roots: Seq<Seq<Seq<char>>>,
)
    ensures
        units_not_hidden(crate::compile::roots_units(l, roots)),
    decreases roots.len(),
{
    if roots.len() > 0 {
        lemma_walk_root_not_hidden(l, roots[0]);
        lemma_roots_units_not_hidden(l, roots.skip(1));
        let head = crate::compile::walk_root(l, roots[0]);
        let tail = crate::compile::roots_units(l, roots.skip(1));
        let whole = crate::compile::roots_units(l, roots);
        assert forall|i: int| 0 <= i < whole.len() implies unit_not_hidden(
            #[trigger] whole[i],
        ) by {
            if i < head.len() {
                assert(whole[i] == head[i]);
            } else {
                assert(whole[i] == tail[i - head.len()]);
            }
        }
    }
}

proof fn lemma_dep_units_not_hidden(r: crate::project::DepRoot)
    ensures
        units_not_hidden(crate::compile::dep_units(r)),
    decreases r,
{
    match r {
        crate::project::DepRoot::Missing => {},
        crate::project::DepRoot::Tree(d) => {
            lemma_roots_units_not_hidden(d.listing@, crate::compile::spec_discover(d));
        },
        crate::project::DepRoot::Project(p) => {
            lemma_project_units_not_hidden(*p);
        },
    }
}

proof fn lemma_local_units_not_hidden(s: Seq<crate::project::LocalDep>)
    ensures
        units_not_hidden(crate::compile::local_units(s)),
    decreases s,
{
    if s.len() > 0 {
        lemma_dep_units_not_hidden(s[0].root);
        lemma_local_units_not_hidden(s.skip(1));
        let head = crate::compile::dep_units(s[0].root);
        let tail = crate::compile::local_units(s.skip(1));
        let whole = crate::compile::local_units(s);
        assert forall|i: int| 0 <= i < whole.len() implies unit_not_hidden(
            #[trigger] whole[i],
        ) by {
            if i < head.len() {
                assert(whole[i] == head[i]);
            } else {
                assert(whole[i] == tail[i - head.len()]);
            }
        }
    }
}

proof fn lemma_remote_units_not_hidden(s: Seq<crate::project::RemoteDep>)
    ensures
        units_not_hidden(crate::compile::remote_units(s)),
    decreases s,
{
    if s.len() > 0 {
        lemma_dep_units_not_hidden(s[0].root);
        lemma_remote_units_not_hidden(s.skip(1));
        let head = crate::compile::dep_units(s[0].root);
        let tail = crate::compile::remote_units(s.skip(1));
        let whole = crate::compile::remote_units(s);
        assert forall|i: int| 0 <= i < whole.len() implies unit_not_hidden(
            #[trigger] whole[i],
        ) by {
            if i < head.len() {
                assert(whole[i] == head[i]);
            } else {
                assert(whole[i] == tail[i - head.len()]);
            }
        }
    }
}

proof fn lemma_own_units_not_hidden(p: Project)
    ensures
        units_not_hidden(crate::compile::own_units(p)),
{
    let u = crate::compile::own_units(p);
    let l = p.root.listing@;
    match p.config.source_output_dir {
        Some(so) => {
            lemma_walk_root_not_hidden(l, crate::paths::pv(so.1@));
            lemma_walk_root_not_hidden(l, crate::paths::pv(so.0@));
        },
        None => {
            lemma_walk_root_not_hidden(l, seq!["src"@]);
        },
    }
}

proof fn lemma_project_units_not_hidden(p: Project)
    ensures
        units_not_hidden(project_units(p)),
    decreases p,
{
    lemma_local_units_not_hidden(p.local_deps@);
    lemma_remote_units_not_hidden(p.remote_deps@);
    lemma_own_units_not_hidden(p);
    let a = crate::compile::local_units(p.local_deps@);
    let b = crate::compile::remote_units(p.remote_deps@);
    let c = crate::compile::own_units(p);
    let whole = project_units(p);
    assert forall|i: int| 0 <= i < whole.len() implies unit_not_hidden(#[trigger] whole[i]) by {
        if i < a.len() {
            assert(whole[i] == a[i]);
        } else if i < a.len() + b.len() {
            assert(whole[i] == b[i - a.len()]);
        } else {
            assert(whole[i] == c[i - a.len() - b.len()]);
        }
    }
}

/// Whether an action writes only to destinations free of hidden components.
pub open spec fn action_writes_no_hidden(a: ActionV) -> bool {
    match a {
        ActionV::Dir { dst } => !spec_path_hidden(dst),
        ActionV::LinkCache { out } => !spec_path_hidden(out),
        ActionV::LinkSource { src, dst } => !spec_path_hidden(dst),
        ActionV::Run { cmd, outputs } => forall|i: int|
            0 <= i < outputs.len() ==> !spec_path_hidden(#[trigger] outputs[i]),
    }
}

proof fn lemma_rlast_dot_bounds(name: Seq<char>)
    ensures
        match spec_rlast_dot(name) {
            Some(i) => 0 <= i < name.len() && name[i] == '.',
            None => true,
        },
    decreases name.len(),
{
    if name.len() > 0 && name[name.len() - 1] != '.' {
        lemma_rlast_dot_bounds(name.take(name.len() - 1));
    }
}

proof fn lemma_set_ext_not_hidden(name: Seq<char>, ext: Seq<char>)
    requires
        !spec_hidden(name),
        spec_ext(name) is Some,
    ensures
        !spec_hidden(spec_set_ext(name, ext)),
{
    lemma_rlast_dot_bounds(name);
    let i = spec_rlast_dot(name).unwrap();
    assert(i > 0);
    assert(spec_set_ext(name, ext) == name.take(i) + seq!['.'] + ext);
    assert(spec_set_ext(name, ext)[0] == name[0]);
}

proof fn lemma_rule_outputs_not_hidden(src: Seq<char>, dst: Seq<Seq<char>>)
    requires
        !spec_path_hidden(dst),
        spec_rule(src, dst) is Some,
    ensures
        forall|i: int|
            0 <= i < spec_rule(src, dst).unwrap().0.len() ==> !spec_path_hidden(
                #[trigger] spec_rule(src, dst).unwrap().0[i],
            ),
{
    reveal_strlit("overviews");
    let name = dst.last();
    assert(!spec_hidden(name));
    let outs = spec_rule(src, dst).unwrap().0;
    let parent = dst.drop_last();
    assert(forall|j: int| 0 <= j < parent.len() ==> !spec_hidden(#[trigger] parent[j])) by {
        assert(forall|j: int| 0 <= j < parent.len() ==> parent[j] == dst[j]);
    }
    assert(!spec_hidden("overviews"@)) by {
        assert("overviews"@[0] == 'o');
    }
    let e = spec_ext(name).unwrap();
    if e == "level"@ {
        lemma_set_ext_not_hidden(name, "tga"@);
        lemma_set_ext_not_hidden(name, "hmp"@);
        let o2 = parent.push("overviews"@).push(spec_set_ext(name, "tga"@));
        let o3 = parent.push("overviews"@).push(spec_set_ext(name, "hmp"@));
        assert(!spec_path_hidden(o2)) by {
            assert(forall|j: int| 0 <= j < o2.len() ==> !spec_hidden(#[trigger] o2[j]));
        }
        assert(!spec_path_hidden(o3)) by {
            assert(forall|j: int| 0 <= j < o3.len() ==> !spec_hidden(#[trigger] o3[j]));
        }
    } else {
        lemma_dds_name_not_hidden(name);
        let o = crate::rules::spec_psd_output(dst);
        assert(!spec_path_hidden(o)) by {
            assert(forall|j: int| 0 <= j < o.len() ==> !spec_hidden(#[trigger] o[j]));
        }
    }
}

proof fn lemma_dds_name_not_hidden(name: Seq<char>)
    requires
        !spec_hidden(name),
        spec_ext(name) is Some,
    ensures
        !spec_hidden(crate::rules::spec_dds_name(name)),
{
    lemma_rlast_dot_bounds(name);
    let st = crate::paths::spec_stem(name);
    let i = spec_rlast_dot(name).unwrap();
    assert(i > 0);
    assert(st == name.take(i));
    assert(st[0] == name[0]);
    let marker = "_normal"@;
    if marker.is_suffix_of(st) && st.len() > marker.len() {
        let base = st.take(st.len() - marker.len());
        assert(base.len() >= 1);
        assert(base[0] == st[0]);
        assert(crate::rules::spec_dds_name(name)[0] == name[0]);
    } else {
        assert(crate::rules::spec_dds_name(name)[0] == name[0]);
    }
}

proof fn lemma_build_actions_no_hidden(
    cache: Option<Seq<Seq<Seq<char>>>>,
    src: Seq<char>,
    dst: Seq<Seq<char>>,
)
    requires
        !spec_path_hidden(dst),
    ensures
        forall|i: int|
            0 <= i < build_actions(cache, src, dst).len() ==> action_writes_no_hidden(
                #[trigger] build_actions(cache, src, dst)[i],
            ),
{
    match spec_rule(src, dst) {
        None => {},
        Some(r) => {
            lemma_rule_outputs_not_hidden(src, dst);
        },
    }
}

proof fn lemma_units_actions_no_hidden(cache: Option<Seq<Seq<Seq<char>>>>, us: Seq<EntryV>)
    requires
        units_not_hidden(us),
    ensures
        forall|i: int|
            0 <= i < units_actions(cache, us).len() ==> action_writes_no_hidden(
                #[trigger] units_actions(cache, us)[i],
            ),
    decreases us.len(),
{
    if us.len() > 0 {
        assert(forall|j: int| 0 <= j < us.skip(1).len() ==> us.skip(1)[j] == us[j + 1]);
        lemma_units_actions_no_hidden(cache, us.skip(1));
        let head = unit_actions(cache, us[0]);
        let tail = units_actions(cache, us.skip(1));
        let whole = units_actions(cache, us);
        assert(forall|i: int|
            0 <= i < head.len() ==> action_writes_no_hidden(#[trigger] head[i])) by {
            match us[0] {
                EntryV::Dir { dst } => {
                    assert(unit_not_hidden(us[0]));
                },
                EntryV::File { src, dst } => {
                    assert(unit_not_hidden(us[0]));
                    lemma_build_actions_no_hidden(cache, src, dst);
                },
            }
        }
        assert forall|i: int| 0 <= i < whole.len() implies action_writes_no_hidden(
            #[trigger] whole[i],
        ) by {
            if i < head.len() {
                assert(whole[i] == head[i]);
            } else {
                assert(whole[i] == tail[i - head.len()]);
            }
        }
    }
}

proof fn lemma_units_staged_no_hidden(us: Seq<EntryV>)
    requires
        units_not_hidden(us),
    ensures
        forall|i: int|
            0 <= i < units_staged(us).len() ==> !spec_path_hidden(
                (#[trigger] units_staged(us)[i]).1,
            ),
    decreases us.len(),
{
    if us.len() > 0 {
        assert(forall|j: int| 0 <= j < us.skip(1).len() ==> us.skip(1)[j] == us[j + 1]);
        lemma_units_staged_no_hidden(us.skip(1));
        let head = unit_staged(us[0]);
        let tail = units_staged(us.skip(1));
        let whole = units_staged(us);
        assert(forall|i: int| 0 <= i < head.len() ==> !spec_path_hidden(
            (#[trigger] head[i]).1,
        )) by {
            assert(unit_not_hidden(us[0]));
        }
        assert forall|i: int| 0 <= i < whole.len() implies !spec_path_hidden(
            (#[trigger] whole[i]).1,
        ) by {
            if i < head.len() {
                assert(whole[i] == head[i]);
            } else {
                assert(whole[i] == tail[i - head.len()]);
            }
        }
    }
}

/// Law: nothing in any compile plan writes to a path with a hidden-marked
/// component — a file or directory whose name begins with the hidden
/// marker, anywhere in any source tree, never appears in the merged output.
pub proof fn lemma_hidden_never_written(p: Project, cache: Option<Seq<Seq<Seq<char>>>>)
    ensures
        forall|i: int|
            0 <= i < spec_plan(p, cache).len() ==> action_writes_no_hidden(
                #[trigger] spec_plan(p, cache)[i],
            ),
{
    let us = project_units(p);
    let acts = units_actions(cache, us);
    let fin = finalize_actions(units_staged(us));
    lemma_project_units_not_hidden(p);
    lemma_units_actions_no_hidden(cache, us);
    lemma_units_staged_no_hidden(us);
    assert forall|i: int| 0 <= i < spec_plan(p, cache).len() implies action_writes_no_hidden(
        #[trigger] spec_plan(p, cache)[i],
    ) by {
        if i < acts.len() {
            assert(spec_plan(p, cache)[i] == acts[i]);
        } else {
            assert(spec_plan(p, cache)[i] == fin[i - acts.len()]);
            assert(fin[i - acts.len()] == (ActionV::LinkSource {
                src: units_staged(us)[i - acts.len()].0,
                dst: units_staged(us)[i - acts.len()].1,
            }));
        }
    }
}

} // verus!
