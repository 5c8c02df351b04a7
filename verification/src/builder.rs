//! The incremental cache and materializer: rule-driven files are built at
//! once — reusing the previous output root where it already holds every
//! expected artifact — while passthrough files are queued and hard-linked in
//! one final pass, exactly once per compile.
use vstd::prelude::*;

use crate::paths::pv;
use crate::rules::{Cmd, CmdV, Rule, cmd_v, paths_v, spec_rule, get_rule};
use crate::seqs::{lemma_take_push, lemma_concat_push, lemma_push_singleton, lemma_concat_empty};

verus! {

/// One step of the output plan.  Placements are always hard links, never
/// copies: a file in the output shares storage with its source.
pub enum Action {
    /// Ensure the directory at this relative path exists in the output root.
    Dir { dst: Vec<String> },
    /// Hard-link `out` from the previous output root to the same relative
    /// path in the new one: a cache hit.
    LinkCache { out: Vec<String> },
    /// Hard-link the absolute source path `src` to the relative destination
    /// `dst`, replacing any earlier file there.
    LinkSource { src: String, dst: Vec<String> },
    /// Run the external build command; it must produce `outputs`, and a
    /// failure aborts the compile.
    Run { cmd: Cmd, outputs: Vec<Vec<String>> },
}

/// The view of an `Action`.
pub enum ActionV {
    Dir { dst: Seq<Seq<char>> },
    LinkCache { out: Seq<Seq<char>> },
    LinkSource { src: Seq<char>, dst: Seq<Seq<char>> },
    Run { cmd: CmdV, outputs: Seq<Seq<Seq<char>>> },
}

/// The view of an `Action`.
pub open spec fn action_v(a: Action) -> ActionV {
    match a {
        Action::Dir { dst } => ActionV::Dir { dst: pv(dst@) },
        Action::LinkCache { out } => ActionV::LinkCache { out: pv(out@) },
        Action::LinkSource { src, dst } => ActionV::LinkSource { src: src@, dst: pv(dst@) },
        Action::Run { cmd, outputs } => ActionV::Run {
            cmd: cmd_v(cmd),
            outputs: paths_v(outputs@),
        },
    }
}

/// The views of a list of actions.
pub open spec fn actions_v(s: Seq<Action>) -> Seq<ActionV> {
    s.map_values(|a: Action| action_v(a))
}

/// A queued passthrough pair: absolute source, relative destination.
pub struct Staged {
    pub src: String,
    pub dst: Vec<String>,
}

/// The views of the passthrough queue.
pub open spec fn staged_v(s: Seq<Staged>) -> Seq<(Seq<char>, Seq<Seq<char>>)> {
    s.map_values(|p: Staged| (p.src@, pv(p.dst@)))
}

proof fn lemma_actions_v_push(s: Seq<Action>, a: Action)
    ensures
        actions_v(s.push(a)) == actions_v(s).push(action_v(a)),
{
    assert(actions_v(s.push(a)) =~= actions_v(s).push(action_v(a)));
}

proof fn lemma_staged_v_push(s: Seq<Staged>, a: Staged)
    ensures
        staged_v(s.push(a)) == staged_v(s).push((a.src@, pv(a.dst@))),
{
    assert(staged_v(s.push(a)) =~= staged_v(s).push((a.src@, pv(a.dst@))));
}

/// Whether the previous output root holds every expected artifact; with no
/// cache, nothing is covered.
pub open spec fn covered(cache: Option<Seq<Seq<Seq<char>>>>, outs: Seq<Seq<Seq<char>>>) -> bool {
    match cache {
        None => false,
        Some(c) => forall|i: int| 0 <= i < outs.len() ==> c.contains(outs[i]),
    }
}

/// The actions one discovered file adds to the plan: nothing for
/// passthrough, a cache link per artifact on a cache hit, one command run
/// otherwise.
pub open spec fn build_actions(
    cache: Option<Seq<Seq<Seq<char>>>>,
    src: Seq<char>,
    dst: Seq<Seq<char>>,
) -> Seq<ActionV> {
    match spec_rule(src, dst) {
        None => seq![],
        Some((outs, cmd)) => if covered(cache, outs) {
            outs.map_values(|o: Seq<Seq<char>>| ActionV::LinkCache { out: o })
        } else {
            seq![ActionV::Run { cmd, outputs: outs }]
        },
    }
}

/// What one file adds to the passthrough queue: itself, when no rule
/// matches.
pub open spec fn build_staged(src: Seq<char>, dst: Seq<Seq<char>>) -> Seq<
    (Seq<char>, Seq<Seq<char>>),
> {
    match spec_rule(src, dst) {
        None => seq![(src, dst)],
        Some(_) => seq![],
    }
}

/// The final pass: every queued pair becomes a hard link, in queue order.
pub open spec fn finalize_actions(staged: Seq<(Seq<char>, Seq<Seq<char>>)>) -> Seq<ActionV> {
    staged.map_values(|p: (Seq<char>, Seq<Seq<char>>)| ActionV::LinkSource { src: p.0, dst: p.1 })
}

/// Finalizing the builder a second time is a protocol violation: the
/// passthrough queue has already been materialized.
#[derive(Clone, Copy, PartialEq, Eq, Structural, Debug)]
pub enum ProtocolError {
    AlreadyFinalized,
}

/// One compile pass's output builder: it accumulates the plan, consults the
/// previous output root as a read-only cache, and queues passthrough files
/// until the one finalize pass.
pub struct Builder {
    /// The relative paths present under the previous output root, when one
    /// was adopted as cache.
    pub cache: Option<Vec<Vec<String>>>,
    /// The plan so far, in execution order.
    pub actions: Vec<Action>,
    /// The passthrough queue, in discovery order.
    pub rest: Vec<Staged>,
    /// Whether the final passthrough pass has run.
    pub rest_built: bool,
}

/// The view of the builder's cache.
pub open spec fn cache_v(c: Option<Vec<Vec<String>>>) -> Option<Seq<Seq<Seq<char>>>> {
    match c {
        None => None,
        Some(v) => Some(paths_v(v@)),
    }
}

/// Whether `list` holds a path with the components of `p`.
fn contains_path(list: &Vec<Vec<String>>, p: &Vec<String>) -> (r: bool)
    ensures
        r == paths_v(list@).contains(pv(p@)),
{
    let mut i: usize = 0;
    while i < list.len()
        invariant
            i <= list@.len(),
            forall|j: int| 0 <= j < i ==> paths_v(list@)[j] != pv(p@),
        decreases list@.len() - i,
    {
        if crate::paths::path_eq(&list[i], p) {
            proof {
                assert(paths_v(list@)[i as int] == pv(p@));
            }
            return true;
        }
        i = i + 1;
    }
    proof {
        assert(forall|j: int| 0 <= j < paths_v(list@).len() ==> paths_v(list@)[j] != pv(p@));
    }
    false
}

impl Builder {
    /// The view of this builder's cache.
    pub open spec fn cache_view(&self) -> Option<Seq<Seq<Seq<char>>>> {
        cache_v(self.cache)
    }

    /// A fresh builder for one compile pass, over an optional previous
    /// output root listing.
    pub fn new(cache: Option<Vec<Vec<String>>>) -> (r: Builder)
        ensures
            r.cache_view() == cache_v(cache),
            r.actions@ =~= Seq::<Action>::empty(),
            r.rest@ =~= Seq::<Staged>::empty(),
            !r.rest_built,
    {
        Builder { cache, actions: Vec::new(), rest: Vec::new(), rest_built: false }
    }

    /// Whether the cache holds every one of the expected artifacts.
    fn cache_has_all(&self, outs: &Vec<Vec<String>>) -> (r: bool)
        ensures
            r == covered(self.cache_view(), paths_v(outs@)),
    {
        let cache = match &self.cache {
            None => {
                return false;
            },
            Some(c) => c,
        };
        let mut i: usize = 0;
        while i < outs.len()
            invariant
                self.cache == Some(*cache),
                i <= outs@.len(),
                forall|j: int| 0 <= j < i ==> paths_v(cache@).contains(paths_v(outs@)[j]),
            decreases outs@.len() - i,
        {
            if !contains_path(cache, &outs[i]) {
                proof {
                    assert(!paths_v(cache@).contains(paths_v(outs@)[i as int]));
                }
                return false;
            }
            i = i + 1;
        }
        true
    }

    /// Ensures the destination directory exists before files beneath it are
    /// placed.
    pub fn dir(&mut self, dst: Vec<String>)
        ensures
            final(self).cache_view() == old(self).cache_view(),
            final(self).rest_built == old(self).rest_built,
            staged_v(final(self).rest@) == staged_v(old(self).rest@),
            actions_v(final(self).actions@) == actions_v(old(self).actions@).push(
                ActionV::Dir { dst: pv(dst@) },
            ),
    {
        let ghost dv = pv(dst@);
        let ghost acts0 = self.actions@;
        self.actions.push(Action::Dir { dst });
        proof {
            let a = self.actions@.last();
            assert(self.actions@ == acts0.push(a));
            lemma_actions_v_push(acts0, a);
            assert(action_v(a) == (ActionV::Dir { dst: dv }));
        }
    }

    /// Stages one discovered file: a rule match builds it at once — from the
    /// cache when every expected artifact is already there, else by its
    /// command — while a passthrough file is queued for the final pass.
    pub fn build(&mut self, src: String, dst: Vec<String>)
        ensures
            final(self).cache_view() == old(self).cache_view(),
            final(self).rest_built == old(self).rest_built,
            actions_v(final(self).actions@) == actions_v(old(self).actions@) + build_actions(
                old(self).cache_view(),
                src@,
                pv(dst@),
            ),
            staged_v(final(self).rest@) == staged_v(old(self).rest@) + build_staged(
                src@,
                pv(dst@),
            ),
    {
        let ghost srcv = src@;
        let ghost dstv = pv(dst@);
        match get_rule(&src, &dst) {
            None => {
                let ghost rest0 = self.rest@;
                self.rest.push(Staged { src, dst });
                proof {
                    let st = self.rest@.last();
                    assert(self.rest@ == rest0.push(st));
                    lemma_staged_v_push(rest0, st);
                    lemma_push_singleton(staged_v(rest0), (srcv, dstv));
                    lemma_concat_empty(actions_v(self.actions@));
                }
            },
            Some(rule) => {
                let Rule { outputs, cmd } = rule;
                let ghost outsv = paths_v(outputs@);
                let ghost cmdv = cmd_v(cmd);
                if self.cache_has_all(&outputs) {
                    let ghost mapped = outsv.map_values(
                        |o: Seq<Seq<char>>| ActionV::LinkCache { out: o },
                    );
                    let n = outputs.len();
                    let mut k: usize = 0;
                    let ghost acts0 = actions_v(self.actions@);
                    proof {
                        assert(mapped.take(0) =~= Seq::<ActionV>::empty());
                        lemma_concat_empty(acts0);
                    }
                    while k < n
                        invariant
                            n == outputs@.len(),
                            k <= n,
                            paths_v(outputs@) == outsv,
                            mapped == outsv.map_values(
                                |o: Seq<Seq<char>>| ActionV::LinkCache { out: o },
                            ),
                            actions_v(self.actions@) == acts0 + mapped.take(k as int),
                            staged_v(self.rest@) == staged_v(old(self).rest@),
                            self.rest_built == old(self).rest_built,
                            self.cache_view() == old(self).cache_view(),
                        decreases n - k,
                    {
                        let out = crate::paths::path_clone(&outputs[k]);
                        proof {
                            assert(pv(out@) == outsv[k as int]);
                        }
                        let ghost acts_pre = self.actions@;
                        self.actions.push(Action::LinkCache { out });
                        proof {
                            let a = self.actions@.last();
                            assert(self.actions@ == acts_pre.push(a));
                            lemma_actions_v_push(acts_pre, a);
                            assert(action_v(a) == mapped[k as int]);
                            lemma_concat_push(acts0, mapped.take(k as int), mapped[k as int]);
                            lemma_take_push(mapped, k as int);
                        }
                        k = k + 1;
                    }
                    proof {
                        assert(mapped.take(n as int) =~= mapped);
                        lemma_concat_empty(staged_v(self.rest@));
                    }
                } else {
                    let ghost acts0 = self.actions@;
                    self.actions.push(Action::Run { cmd, outputs });
                    proof {
                        let a = self.actions@.last();
                        assert(self.actions@ == acts0.push(a));
                        lemma_actions_v_push(acts0, a);
                        assert(action_v(a) == (ActionV::Run { cmd: cmdv, outputs: outsv }));
                        lemma_push_singleton(
                            actions_v(acts0),
                            ActionV::Run { cmd: cmdv, outputs: outsv },
                        );
                        lemma_concat_empty(staged_v(self.rest@));
                    }
                }
            },
        }
    }

    /// The final pass: hard-links every queued passthrough pair into the
    /// output root, in queue order, so the last dependency to supply a
    /// contested path wins.  Running it a second time on one builder is a
    /// protocol violation and is reported, with the builder unchanged.
    pub fn build_rest(&mut self) -> (r: Result<(), ProtocolError>)
        ensures
            old(self).rest_built ==> r is Err && final(self).rest_built
                && actions_v(final(self).actions@) == actions_v(old(self).actions@)
                && staged_v(final(self).rest@) == staged_v(old(self).rest@)
                && final(self).cache_view() == old(self).cache_view(),
            !old(self).rest_built ==> r is Ok && final(self).rest_built
                && actions_v(final(self).actions@) == actions_v(old(self).actions@)
                + finalize_actions(staged_v(old(self).rest@))
                && staged_v(final(self).rest@) == staged_v(old(self).rest@)
                && final(self).cache_view() == old(self).cache_view(),
    {
        if self.rest_built {
            return Err(ProtocolError::AlreadyFinalized);
        }
        self.rest_built = true;
        let n = self.rest.len();
        let mut k: usize = 0;
        let ghost acts0 = actions_v(self.actions@);
        let ghost restv = staged_v(self.rest@);
        let ghost mapped = finalize_actions(restv);
        proof {
            assert(mapped.take(0) =~= Seq::<ActionV>::empty());
            lemma_concat_empty(acts0);
        }
        while k < n
            invariant
                n == self.rest@.len(),
                k <= n,
                restv == staged_v(self.rest@),
                mapped == finalize_actions(restv),
                actions_v(self.actions@) == acts0 + mapped.take(k as int),
                self.rest_built == true,
                self.cache_view() == old(self).cache_view(),
            decreases n - k,
        {
            let src = self.rest[k].src.clone();
            let dst = crate::paths::path_clone(&self.rest[k].dst);
            proof {
                assert(src@ == restv[k as int].0);
                assert(pv(dst@) == restv[k as int].1);
            }
            let ghost acts_pre = self.actions@;
            self.actions.push(Action::LinkSource { src, dst });
            proof {
                let a = self.actions@.last();
                assert(self.actions@ == acts_pre.push(a));
                lemma_actions_v_push(acts_pre, a);
                assert(action_v(a) == mapped[k as int]);
                lemma_concat_push(acts0, mapped.take(k as int), mapped[k as int]);
                lemma_take_push(mapped, k as int);
            }
            k = k + 1;
        }
        proof {
            assert(mapped.take(n as int) =~= mapped);
        }
        Ok(())
    }
}

} // verus!
