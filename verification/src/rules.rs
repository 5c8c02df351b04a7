//! The build-rule dispatcher: an extension-keyed table mapping a source
//! file to the destination artifacts it produces and to the external
//! command that builds them.  A file matching no rule passes through
//! unchanged.
use vstd::prelude::*;

use crate::paths::{
    pv, spec_ext, spec_set_ext, spec_stem, extension, with_ext, name_ends_with, path_clone, stem,
};
use crate::text::string_from_chars;

verus! {

/// The command descriptor of a rule-driven build step, as data: the front
/// end resolves the tool's location and launches it.
pub enum Cmd {
    /// The overview generator, handed the source level file; it writes the
    /// expected artifacts into the output root itself.
    Overview { src: String },
    /// The texture compressor, handed the source image and the destination
    /// artifact; `normal` selects the normal-map compression variant.
    NvCompress { normal: bool, src: String, dst: Vec<String> },
}

/// The view of a command descriptor.
pub enum CmdV {
    Overview { src: Seq<char> },
    NvCompress { normal: bool, src: Seq<char>, dst: Seq<Seq<char>> },
}

/// The view of a `Cmd`.
pub open spec fn cmd_v(c: Cmd) -> CmdV {
    match c {
        Cmd::Overview { src } => CmdV::Overview { src: src@ },
        Cmd::NvCompress { normal, src, dst } => CmdV::NvCompress {
            normal,
            src: src@,
            dst: pv(dst@),
        },
    }
}

/// The views of a list of paths.
pub open spec fn paths_v(s: Seq<Vec<String>>) -> Seq<Seq<Seq<char>>> {
    s.map_values(|p: Vec<String>| pv(p@))
}

/// A matched build rule: the destination paths the step must produce, and
/// the command that produces them.
pub struct Rule {
    pub outputs: Vec<Vec<String>>,
    pub cmd: Cmd,
}

/// The artifacts of a level file: the copied level itself, plus its two
/// overview artifacts in an `overviews` directory beside it.
pub open spec fn spec_level_outputs(dst: Seq<Seq<char>>) -> Seq<Seq<Seq<char>>> {
    let name = dst.last();
    let parent = dst.drop_last();
    seq![
        dst,
        parent.push("overviews"@).push(spec_set_ext(name, "tga"@)),
        parent.push("overviews"@).push(spec_set_ext(name, "hmp"@)),
    ]
}

/// The compressed artifact's name: the stem with a trailing `_normal`
/// dropped — the variant marker carries no information once the artifact is
/// built — then the `dds` extension.  A name that is nothing but the marker
/// keeps its stem, so the artifact never turns hidden.
pub open spec fn spec_dds_name(name: Seq<char>) -> Seq<char> {
    let st = spec_stem(name);
    let base = if "_normal"@.is_suffix_of(st) && st.len() > "_normal"@.len() {
        st.take(st.len() - "_normal"@.len())
    } else {
        st
    };
    base + seq!['.'] + "dds"@
}

/// The single artifact of a texture: the compressed image beside the
/// destination.
pub open spec fn spec_psd_output(dst: Seq<Seq<char>>) -> Seq<Seq<char>> {
    dst.drop_last().push(spec_dds_name(dst.last()))
}

/// The compressed artifact's name for one texture destination.
fn dds_name(name: &str) -> (r: String)
    ensures
        r@ == spec_dds_name(name@),
{
    let st = stem(name);
    let v = crate::text::str_chars(st.as_str());
    let marker = crate::text::str_chars("_normal");
    proof {
        reveal_strlit("_normal");
    }
    let keep: usize = if v.len() > marker.len() {
        let at = v.len() - marker.len();
        let hit = crate::text::check_match(&v, &marker, at);
        proof {
            if hit {
                assert(marker@ =~= v@.subrange(
                    v@.len() - marker@.len(),
                    v@.len() as int,
                ));
            } else {
                assert(!(marker@ =~= v@.subrange(
                    v@.len() - marker@.len(),
                    v@.len() as int,
                )));
            }
        }
        if hit {
            at
        } else {
            v.len()
        }
    } else {
        v.len()
    };
    let mut out = crate::text::vec_slice(&v, 0, keep);
    out.push('.');
    crate::text::vec_extend_str(&mut out, "dds");
    proof {
        if keep < v@.len() {
            assert(v@.subrange(0, keep as int) =~= v@.take(keep as int));
        } else {
            assert(v@.subrange(0, keep as int) =~= v@);
        }
        assert(out@ =~= spec_dds_name(name@));
    }
    string_from_chars(out)
}

/// The rule table, keyed by the destination file's extension: what the
/// dispatcher yields for a file bound for `dst`, with `src` its absolute
/// source.  `None` is passthrough.
pub open spec fn spec_rule(src: Seq<char>, dst: Seq<Seq<char>>) -> Option<
    (Seq<Seq<Seq<char>>>, CmdV),
> {
    if dst.len() == 0 {
        None
    } else {
        match spec_ext(dst.last()) {
            Some(e) => if e == "level"@ {
                Some((spec_level_outputs(dst), CmdV::Overview { src }))
            } else if e == "psd"@ {
                Some(
                    (
                        seq![spec_psd_output(dst)],
                        CmdV::NvCompress {
                            normal: "_normal.psd"@.is_suffix_of(dst.last()),
                            src,
                            dst: spec_psd_output(dst),
                        },
                    ),
                )
            } else {
                None
            },
            None => None,
        }
    }
}

/// A copy of `p` without its last component.
fn path_parent(p: &Vec<String>) -> (r: Vec<String>)
    requires
        p@.len() >= 1,
    ensures
        pv(r@) == pv(p@).drop_last(),
{
    let mut r: Vec<String> = Vec::new();
    let mut i: usize = 0;
    let n = p.len() - 1;
    while i < n
        invariant
            n == p@.len() - 1,
            i <= n,
            r@.len() == i,
            forall|j: int| 0 <= j < i ==> r@[j]@ == p@[j]@,
        decreases n - i,
    {
        let c = p[i].clone();
        assert(c@ == p@[i as int]@);
        r.push(c);
        i = i + 1;
    }
    proof {
        assert(pv(r@) =~= pv(p@).drop_last());
    }
    r
}

/// Looks the destination's extension up in the rule table.
pub fn get_rule(src: &String, dst: &Vec<String>) -> (r: Option<Rule>)
    ensures
        match r {
            Some(rule) => spec_rule(src@, pv(dst@)) == Some(
                (paths_v(rule.outputs@), cmd_v(rule.cmd)),
            ),
            None => spec_rule(src@, pv(dst@)) is None,
        },
{
    if dst.len() == 0 {
        return None;
    }
    let name = &dst[dst.len() - 1];
    proof {
        assert(name@ == pv(dst@).last());
    }
    let ext = match extension(name.as_str()) {
        Some(e) => e,
        None => {
            return None;
        },
    };
    let level_key = String::from_str("level");
    let psd_key = String::from_str("psd");
    if ext == level_key {
        let mut overview_base = path_parent(dst);
        overview_base.push(String::from_str("overviews"));
        proof {
            assert(pv(overview_base@) =~= pv(dst@).drop_last().push("overviews"@));
        }
        let mut o2 = path_clone(&overview_base);
        o2.push(with_ext(name.as_str(), "tga"));
        proof {
            assert(pv(o2@) =~= pv(dst@).drop_last().push("overviews"@).push(
                spec_set_ext(pv(dst@).last(), "tga"@),
            ));
        }
        let mut o3 = overview_base;
        o3.push(with_ext(name.as_str(), "hmp"));
        proof {
            assert(pv(o3@) =~= pv(dst@).drop_last().push("overviews"@).push(
                spec_set_ext(pv(dst@).last(), "hmp"@),
            ));
        }
        let outputs: Vec<Vec<String>> = vec![path_clone(dst), o2, o3];
        proof {
            assert(paths_v(outputs@) =~= spec_level_outputs(pv(dst@)));
        }
        Some(Rule { outputs, cmd: Cmd::Overview { src: src.clone() } })
    } else if ext == psd_key {
        let mut out = path_parent(dst);
        out.push(dds_name(name.as_str()));
        proof {
            assert(pv(out@) =~= spec_psd_output(pv(dst@)));
        }
        let normal = name_ends_with(name.as_str(), "_normal.psd");
        let outputs: Vec<Vec<String>> = vec![path_clone(&out)];
        proof {
            assert(paths_v(outputs@) =~= seq![spec_psd_output(pv(dst@))]);
        }
        Some(Rule { outputs, cmd: Cmd::NvCompress { normal, src: src.clone(), dst: out } })
    } else {
        None
    }
}

} // verus!
