//! A project's loaded configuration: ordered dependency items, named
//! branches, and the optional explicit source/output directory override
//! that a legacy settings file declares.
use vstd::prelude::*;

use crate::item::{Item, spec_item_from_str};
use crate::lua::{spec_parse, spec_lookup, pairs_v, lookup, parse};
use crate::paths::pv;
use crate::text::{str_chars, string_from_chars, vec_slice, spec_find, find_sub, lemma_find_bounds};

verus! {

/// One publishable branch of a project.
pub struct Branch {
    pub name: String,
    pub tags: Vec<String>,
    pub autodescription: Option<bool>,
    pub description: Option<String>,
    pub description_str: Option<String>,
    pub preview: Option<String>,
    pub website: Option<String>,
    pub item: Option<Item>,
}

/// A project's configuration, read once per compile.
pub struct Config {
    /// The remote-cached dependencies, in declaration order.
    pub deps: Vec<Item>,
    /// The named branches.
    pub branches: Vec<(String, Branch)>,
    /// The explicit (source, output) directory override of a legacy
    /// settings file.
    pub source_output_dir: Option<(Vec<String>, Vec<String>)>,
}

/// Failure to read a configuration out of a legacy settings text.
#[derive(Debug)]
pub enum LuaGetError {
    /// A declaration the configuration needs is missing.
    MissingKey(String),
    /// The published-item field does not carry an item id.
    InvalidPublishId,
}

/// A relative path split at `/` separators, empty segments dropped (so the
/// empty override names the dependency root itself).
pub open spec fn spec_split_slash(s: Seq<char>) -> Seq<Seq<char>>
    decreases s.len(),
    via spec_split_slash_dec
{
    match spec_find(s, seq!['/'], 0) {
        None => if s.len() == 0 {
            Seq::empty()
        } else {
            seq![s]
        },
        Some(p) => (if p == 0 {
            Seq::<Seq<char>>::empty()
        } else {
            seq![s.take(p)]
        }) + spec_split_slash(s.skip(p + 1)),
    }
}

#[via_fn]
proof fn spec_split_slash_dec(s: Seq<char>) {
    lemma_find_bounds(s, seq!['/'], 0);
}

/// Splits a path string at `/` separators.
pub fn split_slash(s: &str) -> (r: Vec<String>)
    ensures
        pv(r@) == spec_split_slash(s@),
{
    let v = str_chars(s);
    split_slash_chars(&v)
}

fn split_slash_chars(v: &Vec<char>) -> (r: Vec<String>)
    ensures
        pv(r@) == spec_split_slash(v@),
    decreases v@.len(),
{
    proof {
        lemma_find_bounds(v@, seq!['/'], 0);
    }
    let slash: Vec<char> = vec!['/'];
    proof {
        assert(slash@ =~= seq!['/']);
    }
    let n = v.len();
    match find_sub(v, &slash, 0) {
        None => {
            if n == 0 {
                let r: Vec<String> = Vec::new();
                proof {
                    assert(pv(r@) =~= spec_split_slash(v@));
                }
                r
            } else {
                let mut r: Vec<String> = Vec::new();
                proof {
                    assert(v@.subrange(0, n as int) =~= v@);
                }
                r.push(string_from_chars(vec_slice(v, 0, n)));
                proof {
                    assert(pv(r@) =~= spec_split_slash(v@));
                }
                r
            }
        },
        Some(p) => {
            let rest = split_slash_chars(&vec_slice(v, p + 1, n));
            proof {
                assert(v@.subrange(p + 1 as int, n as int) =~= v@.skip(p + 1 as int));
            }
            if p == 0 {
                proof {
                    assert(pv(rest@) =~= Seq::<Seq<char>>::empty() + spec_split_slash(
                        v@.skip(p + 1 as int),
                    ));
                }
                rest
            } else {
                let mut r: Vec<String> = Vec::new();
                r.push(string_from_chars(vec_slice(v, 0, p)));
                let mut k: usize = 0;
                while k < rest.len()
                    invariant
                        k <= rest@.len(),
                        r@.len() == 1 + k,
                        r@[0]@ == v@.subrange(0, p as int),
                        forall|j: int| 0 <= j < k ==> r@[1 + j]@ == rest@[j]@,
                        p as int == spec_find(v@, seq!['/'], 0).unwrap(),
                        0 < p < v@.len(),
                    decreases rest@.len() - k,
                {
                    let c = rest[k].clone();
                    assert(c@ == rest@[k as int]@);
                    r.push(c);
                    k = k + 1;
                }
                proof {
                    assert(v@.subrange(0, p as int) =~= v@.take(p as int));
                    assert(pv(r@) =~= seq![v@.take(p as int)] + pv(rest@));
                }
                r
            }
        },
    }
}

/// Whether a declaration key marks a workshop tag.
pub open spec fn spec_is_tag_key(k: Seq<char>) -> bool {
    "tag_"@.is_prefix_of(k)
}

/// Whether position `i` holds the first declaration of its key.
pub open spec fn spec_first_occurrence(ps: Seq<(Seq<char>, Seq<char>)>, i: int) -> bool {
    forall|j: int| 0 <= j < i ==> ps[j].0 != ps[i].0
}

/// The tag values of a declaration list: one per distinct `tag_` key, in
/// first-declaration order, the last declaration of each key supplying the
/// value.
pub open spec fn spec_tag_values(ps: Seq<(Seq<char>, Seq<char>)>, i: int) -> Seq<Seq<char>>
    decreases ps.len() - i,
{
    if !(0 <= i < ps.len()) {
        Seq::empty()
    } else {
        (if spec_is_tag_key(ps[i].0) && spec_first_occurrence(ps, i) {
            seq![
                match spec_lookup(ps, ps[i].0) {
                    Some(v) => v,
                    None => Seq::empty(),
                },
            ]
        } else {
            Seq::<Seq<char>>::empty()
        }) + spec_tag_values(ps, i + 1)
    }
}

proof fn lemma_lookup_some(ps: Seq<(Seq<char>, Seq<char>)>, k: Seq<char>, i: int)
    requires
        0 <= i < ps.len(),
        ps[i].0 == k,
    ensures
        spec_lookup(ps, k) is Some,
    decreases ps.len(),
{
    if ps.last().0 != k {
        assert(ps.drop_last()[i] == ps[i]);
        lemma_lookup_some(ps.drop_last(), k, i);
    }
}

fn tag_values(pairs: &Vec<(String, String)>) -> (r: Vec<String>)
    ensures
        pv(r@) == spec_tag_values(pairs_v(pairs@), 0),
{
    let n = pairs.len();
    let mut out: Vec<String> = Vec::new();
    let mut i: usize = 0;
    let ghost psv = pairs_v(pairs@);
    proof {
        assert(pv(out@) + spec_tag_values(psv, 0) =~= spec_tag_values(psv, 0));
    }
    while i < n
        invariant
            i <= n,
            n == pairs@.len(),
            psv == pairs_v(pairs@),
            spec_tag_values(psv, 0) == pv(out@) + spec_tag_values(psv, i as int),
        decreases n - i,
    {
        let key = &pairs[i].0;
        proof {
            assert(key@ == psv[i as int].0);
        }
        let is_tag = crate::paths::name_starts_with(key.as_str(), "tag_");
        let mut fresh = true;
        if is_tag {
            let mut j: usize = 0;
            while j < i
                invariant
                    j <= i <= n,
                    n == pairs@.len(),
                    psv == pairs_v(pairs@),
                    key@ == psv[i as int].0,
                    fresh == (forall|t: int| 0 <= t < j ==> psv[t].0 != psv[i as int].0),
                decreases i - j,
            {
                if fresh {
                    let e = crate::text::str_eq(pairs[j].0.as_str(), key.as_str());
                    proof {
                        assert(pairs@[j as int].0@ == psv[j as int].0);
                    }
                    if e {
                        fresh = false;
                    }
                }
                j = j + 1;
            }
        }
        let ghost out0 = pv(out@);
        if is_tag && fresh {
            proof {
                assert(spec_first_occurrence(psv, i as int));
                lemma_lookup_some(psv, psv[i as int].0, i as int);
            }
            match lookup(pairs, key.as_str()) {
                Some(val) => {
                    out.push(val);
                },
                None => {
                    proof {
                        assert(false);
                    }
                },
            }
            proof {
                assert(pv(out@) =~= out0 + seq![spec_lookup(psv, psv[i as int].0).unwrap()]);
                crate::seqs::lemma_concat_assoc(
                    out0,
                    seq![spec_lookup(psv, psv[i as int].0).unwrap()],
                    spec_tag_values(psv, i + 1),
                );
            }
        } else {
            proof {
                assert(!(spec_is_tag_key(psv[i as int].0) && spec_first_occurrence(
                    psv,
                    i as int,
                )));
                assert(Seq::<Seq<char>>::empty() + spec_tag_values(psv, i + 1) =~= spec_tag_values(
                    psv,
                    i + 1,
                ));
            }
        }
        i = i + 1;
    }
    proof {
        assert(spec_tag_values(psv, n as int) =~= Seq::<Seq<char>>::empty());
        assert(pv(out@) + Seq::<Seq<char>>::empty() =~= pv(out@));
    }
    out
}

/// What the legacy settings text declares for `key`, the last declaration
/// winning.
pub open spec fn spec_setting(text: Seq<char>, key: Seq<char>) -> Option<Seq<char>> {
    spec_lookup(spec_parse(text), key)
}

/// The configuration a legacy settings text describes, when it declares
/// everything required.
pub open spec fn spec_mod_settings_ok(text: Seq<char>, c: Config) -> bool {
    &&& spec_setting(text, "name"@) is Some
    &&& spec_setting(text, "description"@) is Some
    &&& spec_setting(text, "image"@) is Some
    &&& spec_setting(text, "publish_id"@) is Some
    &&& spec_item_from_str(spec_setting(text, "publish_id"@).unwrap()) is Some
    &&& spec_setting(text, "source_dir"@) is Some
    &&& spec_setting(text, "output_dir"@) is Some
    &&& c.deps@.len() == 0
    &&& c.branches@.len() == 1
    &&& c.branches@[0].0@ == "master"@
    &&& {
        let b = c.branches@[0].1;
        &&& b.name@ == spec_setting(text, "name"@).unwrap()
        &&& pv(b.tags@) == spec_tag_values(spec_parse(text), 0)
        &&& b.autodescription == Some(false)
        &&& b.description is None
        &&& b.description_str is Some && b.description_str.unwrap()@ == spec_setting(
            text,
            "description"@,
        ).unwrap()
        &&& b.preview is Some && b.preview.unwrap()@ == spec_setting(text, "image"@).unwrap()
        &&& b.website is None
        &&& b.item == Some(
            Item(spec_item_from_str(spec_setting(text, "publish_id"@).unwrap()).unwrap()),
        )
    }
    &&& c.source_output_dir is Some
    &&& pv(c.source_output_dir.unwrap().0@) == spec_split_slash(
        spec_setting(text, "source_dir"@).unwrap(),
    )
    &&& pv(c.source_output_dir.unwrap().1@) == spec_split_slash(
        spec_setting(text, "output_dir"@).unwrap(),
    )
}

/// How reading a settings text as a configuration ends: the fields are
/// read in declaration order, so the first missing key is reported, and the
/// published-item field is checked as soon as it is read.
pub enum SettingsOutcome {
    MissingKeyAt(Seq<char>),
    InvalidId,
    Readable,
}

/// The outcome of reading a settings text.
pub open spec fn spec_settings_outcome(text: Seq<char>) -> SettingsOutcome {
    if spec_setting(text, "name"@) is None {
        SettingsOutcome::MissingKeyAt("name"@)
    } else if spec_setting(text, "description"@) is None {
        SettingsOutcome::MissingKeyAt("description"@)
    } else if spec_setting(text, "image"@) is None {
        SettingsOutcome::MissingKeyAt("image"@)
    } else if spec_setting(text, "publish_id"@) is None {
        SettingsOutcome::MissingKeyAt("publish_id"@)
    } else if spec_item_from_str(spec_setting(text, "publish_id"@).unwrap()) is None {
        SettingsOutcome::InvalidId
    } else if spec_setting(text, "source_dir"@) is None {
        SettingsOutcome::MissingKeyAt("source_dir"@)
    } else if spec_setting(text, "output_dir"@) is None {
        SettingsOutcome::MissingKeyAt("output_dir"@)
    } else {
        SettingsOutcome::Readable
    }
}

/// Reads a legacy settings text as a configuration: the `master` branch is
/// assembled from the declared fields, every `tag_` declaration becomes a
/// workshop tag, and `source_dir`/`output_dir` become the explicit override.
/// Each required key must be declared — the first missing one is reported —
/// and the published-item field must carry an item id.  The publish-id check
/// comes before the directory keys are required, as the fields are read in
/// that order.
pub fn parse_mod_settings(text: &str) -> (r: Result<Config, LuaGetError>)
    ensures
        match r {
            Ok(c) => spec_settings_outcome(text@) is Readable && spec_mod_settings_ok(text@, c),
            Err(e) => match e {
                LuaGetError::MissingKey(k) => spec_settings_outcome(text@)
                    == SettingsOutcome::MissingKeyAt(k@),
                LuaGetError::InvalidPublishId => spec_settings_outcome(text@)
                    is InvalidId,
            },
        },
{
    let pairs = parse(text);
    let name = match lookup(&pairs, "name") {
        Some(v) => v,
        None => {
            return Err(LuaGetError::MissingKey(String::from_str("name")));
        },
    };
    let description = match lookup(&pairs, "description") {
        Some(v) => v,
        None => {
            return Err(LuaGetError::MissingKey(String::from_str("description")));
        },
    };
    let image = match lookup(&pairs, "image") {
        Some(v) => v,
        None => {
            return Err(LuaGetError::MissingKey(String::from_str("image")));
        },
    };
    let publish_id = match lookup(&pairs, "publish_id") {
        Some(v) => v,
        None => {
            return Err(LuaGetError::MissingKey(String::from_str("publish_id")));
        },
    };
    let item = match Item::parse_str(publish_id.as_str()) {
        Ok(i) => i,
        Err(_) => {
            return Err(LuaGetError::InvalidPublishId);
        },
    };
    let source_dir = match lookup(&pairs, "source_dir") {
        Some(v) => v,
        None => {
            return Err(LuaGetError::MissingKey(String::from_str("source_dir")));
        },
    };
    let output_dir = match lookup(&pairs, "output_dir") {
        Some(v) => v,
        None => {
            return Err(LuaGetError::MissingKey(String::from_str("output_dir")));
        },
    };
    let tags = tag_values(&pairs);
    let branch = Branch {
        name,
        tags,
        autodescription: Some(false),
        description: None,
        description_str: Some(description),
        preview: Some(image),
        website: None,
        item: Some(item),
    };
    let mut branches: Vec<(String, Branch)> = Vec::new();
    branches.push((String::from_str("master"), branch));
    let source = split_slash(source_dir.as_str());
    let output = split_slash(output_dir.as_str());
    Ok(Config { deps: Vec::new(), branches, source_output_dir: Some((source, output)) })
}

/// The view of an optional string.
pub open spec fn opt_v(o: Option<String>) -> Option<Seq<char>> {
    match o {
        Some(s) => Some(s@),
        None => None,
    }
}

/// The view of an optional borrowed string.
pub open spec fn opt_ref_v(o: Option<&String>) -> Option<Seq<char>> {
    match o {
        Some(s) => Some(s@),
        None => None,
    }
}

/// Failure to assemble a branch description.
pub enum DescriptionError {
    /// The description file could not be read.
    ReadError(crate::util::ReadError),
    /// The dependency list could not be read.
    Dependencies(String),
}

/// One resolved dependency as the description lists it: its page address,
/// when it has one, and its display name.
pub struct DepInfo {
    pub url: Option<String>,
    pub name: String,
}

/// The custom part of a description: the named file's text — converted from
/// markdown when the file carries the markdown extension — or else the
/// inline text, or nothing.
pub open spec fn spec_custom_text(b: Branch, file_text: Option<Seq<char>>) -> Seq<char> {
    match b.description {
        Some(path) => {
            let comps = spec_split_slash(path@);
            let nm = if comps.len() > 0 {
                comps.last()
            } else {
                Seq::<char>::empty()
            };
            if crate::paths::spec_ext(nm) == Some("md"@) {
                crate::md2bb::spec_convert(file_text.unwrap())
            } else {
                file_text.unwrap()
            }
        },
        None => match b.description_str {
            Some(s) => s@,
            None => Seq::<char>::empty(),
        },
    }
}

/// The website block of a generated description.
pub open spec fn spec_website_block(website: Option<Seq<char>>, head: Option<Seq<char>>) -> Seq<
    char,
> {
    match website {
        Some(w) => match head {
            Some(c) => "[b][url="@ + w + "]website[/url][/b]\ncurrent git commit: "@ + c
                + "\n\n"@,
            None => "[b][url="@ + w + "]website[/url][/b]\n\n"@,
        },
        None => Seq::<char>::empty(),
    }
}

/// The lines of the dependency list: one per dependency with an address.
pub open spec fn spec_dep_lines(deps: Seq<(Option<Seq<char>>, Seq<char>)>) -> Seq<char>
    decreases deps.len(),
{
    if deps.len() == 0 {
        Seq::<char>::empty()
    } else {
        (match deps[0].0 {
            Some(u) => "  [*] [url="@ + u + "]"@ + deps[0].1 + "[/url]\n"@,
            None => Seq::<char>::empty(),
        }) + spec_dep_lines(deps.skip(1))
    }
}

/// The dependency block: present whenever the project has dependencies at
/// all, even where none has an address.
pub open spec fn spec_deps_block(deps: Seq<(Option<Seq<char>>, Seq<char>)>) -> Seq<char> {
    if deps.len() == 0 {
        Seq::<char>::empty()
    } else {
        "Mods included: [list]\n"@ + spec_dep_lines(deps) + "[/list]\n\n"@
    }
}

/// A whole generated description: the item id header, the website and
/// dependency blocks, then the custom text — or the custom text alone when
/// auto-description is off.
pub open spec fn spec_description(
    item_id: nat,
    website: Option<Seq<char>>,
    head: Option<Seq<char>>,
    deps: Seq<(Option<Seq<char>>, Seq<char>)>,
    custom: Seq<char>,
    auto: bool,
) -> Seq<char> {
    if auto {
        "[b]Mod ID: "@ + crate::item::spec_hex(item_id) + "[/b]\n"@ + spec_website_block(
            website,
            head,
        ) + spec_deps_block(deps) + "\n"@ + custom
    } else {
        custom
    }
}

/// The views of a dependency-info list.
pub open spec fn dep_infos_v(deps: Seq<DepInfo>) -> Seq<(Option<Seq<char>>, Seq<char>)> {
    deps.map_values(
        |d: DepInfo|
            (
                match d.url {
                    Some(u) => Some(u@),
                    None => None,
                },
                d.name@,
            ),
    )
}

impl Branch {
    /// Whether the generated description wraps the custom text; on by
    /// default.
    pub open spec fn spec_auto(&self) -> bool {
        match self.autodescription {
            Some(a) => a,
            None => true,
        }
    }

    /// Assembles this branch's workshop description.  `file_text` is the
    /// content of the branch's description file, where it names one —
    /// reading it is the caller's part; `head` is the current commit id,
    /// where the project has one; `deps` are the resolved dependencies with
    /// their addresses and display names.
    pub fn description(
        &self,
        item: Item,
        file_text: Option<&String>,
        head: Option<&String>,
        deps: &Vec<DepInfo>,
    ) -> (r: String)
        requires
            self.description is Some ==> file_text is Some,
        ensures
            r@ == spec_description(
                item.0 as nat,
                opt_v(self.website),
                opt_ref_v(head),
                dep_infos_v(deps@),
                spec_custom_text(*self, opt_ref_v(file_text)),
                self.spec_auto(),
            ),
    {
        let custom: String = match &self.description {
            Some(path) => {
                let comps = split_slash(path.as_str());
                let is_md = if comps.len() > 0 {
                    match crate::paths::extension(comps[comps.len() - 1].as_str()) {
                        Some(e) => {
                            let md_key = String::from_str("md");
                            proof {
                                assert(comps@[comps@.len() - 1]@ == pv(comps@).last());
                            }
                            e == md_key
                        },
                        None => false,
                    }
                } else {
                    proof {
                        assert(crate::paths::spec_ext(Seq::<char>::empty()) is None);
                    }
                    false
                };
                let text = match file_text {
                    Some(t) => t,
                    None => {
                        proof {
                            assert(false);
                        }
                        unreached()
                    },
                };
                if is_md {
                    crate::md2bb::convert(text.as_str())
                } else {
                    text.clone()
                }
            },
            None => match &self.description_str {
                Some(s) => s.clone(),
                None => String::from_str(""),
            },
        };
        proof {
            reveal_strlit("");
            assert(""@.len() == 0);
            assert(custom@ == spec_custom_text(*self, opt_ref_v(file_text)));
        }
        let auto = match self.autodescription {
            Some(a) => a,
            None => true,
        };
        if !auto {
            proof {
                reveal_strlit("");
            }
            return custom;
        }
        let mut out = crate::text::str_chars("[b]Mod ID: ");
        let hex = crate::item::u64_to_hex_upper(item.0);
        crate::text::vec_extend_str(&mut out, hex.as_str());
        crate::text::vec_extend_str(&mut out, "[/b]\n");
        match &self.website {
            Some(w) => {
                crate::text::vec_extend_str(&mut out, "[b][url=");
                crate::text::vec_extend_str(&mut out, w.as_str());
                match head {
                    Some(c) => {
                        crate::text::vec_extend_str(
                            &mut out,
                            "]website[/url][/b]\ncurrent git commit: ",
                        );
                        crate::text::vec_extend_str(&mut out, c.as_str());
                        crate::text::vec_extend_str(&mut out, "\n\n");
                    },
                    None => {
                        crate::text::vec_extend_str(&mut out, "]website[/url][/b]\n\n");
                    },
                }
            },
            None => {},
        }
        let ghost header_v = "[b]Mod ID: "@ + crate::item::spec_hex(item.0 as nat) + "[/b]\n"@
            + spec_website_block(opt_v(self.website), opt_ref_v(head));
        proof {
            assert(out@ =~= header_v);
        }
        let n = deps.len();
        if n > 0 {
            crate::text::vec_extend_str(&mut out, "Mods included: [list]\n");
            let mut i: usize = 0;
            let ghost base = out@;
            proof {
                assert(spec_dep_lines(dep_infos_v(deps@).take(0)) =~= Seq::<char>::empty());
                assert(base + Seq::<char>::empty() =~= base);
            }
            while i < n
                invariant
                    i <= n,
                    n == deps@.len(),
                    out@ == base + spec_dep_lines(dep_infos_v(deps@).take(i as int)),
                decreases n - i,
            {
                let ghost pre = dep_infos_v(deps@).take(i as int);
                proof {
                    crate::seqs::lemma_take_push(dep_infos_v(deps@), i as int);
                    lemma_dep_lines_snoc(pre, dep_infos_v(deps@)[i as int]);
                }
                match &deps[i].url {
                    Some(u) => {
                        crate::text::vec_extend_str(&mut out, "  [*] [url=");
                        crate::text::vec_extend_str(&mut out, u.as_str());
                        crate::text::vec_extend_str(&mut out, "]");
                        crate::text::vec_extend_str(&mut out, deps[i].name.as_str());
                        crate::text::vec_extend_str(&mut out, "[/url]\n");
                        proof {
                            assert(out@ =~= base + spec_dep_lines(
                                dep_infos_v(deps@).take(i + 1 as int),
                            ));
                        }
                    },
                    None => {
                        proof {
                            assert(out@ =~= base + spec_dep_lines(
                                dep_infos_v(deps@).take(i + 1 as int),
                            ));
                        }
                    },
                }
                i = i + 1;
            }
            proof {
                assert(dep_infos_v(deps@).take(n as int) =~= dep_infos_v(deps@));
            }
            crate::text::vec_extend_str(&mut out, "[/list]\n\n");
        }
        let ghost with_deps = header_v + spec_deps_block(dep_infos_v(deps@));
        proof {
            assert(out@ =~= with_deps);
        }
        crate::text::vec_extend_str(&mut out, "\n");
        crate::text::vec_extend_str(&mut out, custom.as_str());
        proof {
            assert(out@ =~= spec_description(
                item.0 as nat,
                opt_v(self.website),
                opt_ref_v(head),
                dep_infos_v(deps@),
                spec_custom_text(*self, opt_ref_v(file_text)),
                self.spec_auto(),
            ));
        }
        crate::text::string_from_chars(out)
    }
}

proof fn lemma_dep_lines_snoc(
    deps: Seq<(Option<Seq<char>>, Seq<char>)>,
    d: (Option<Seq<char>>, Seq<char>),
)
    ensures
        spec_dep_lines(deps.push(d)) == spec_dep_lines(deps) + (match d.0 {
            Some(u) => "  [*] [url="@ + u + "]"@ + d.1 + "[/url]\n"@,
            None => Seq::<char>::empty(),
        }),
    decreases deps.len(),
{
    let line = match d.0 {
        Some(u) => "  [*] [url="@ + u + "]"@ + d.1 + "[/url]\n"@,
        None => Seq::<char>::empty(),
    };
    if deps.len() == 0 {
        reveal_with_fuel(spec_dep_lines, 2);
        assert(deps.push(d)[0] == d);
        assert(deps.push(d).skip(1) =~= Seq::<(Option<Seq<char>>, Seq<char>)>::empty());
        assert(line + Seq::<char>::empty() =~= line);
        assert(spec_dep_lines(deps) + line =~= line);
    } else {
        assert(deps.push(d)[0] == deps[0]);
        assert(deps.push(d).skip(1) =~= deps.skip(1).push(d));
        lemma_dep_lines_snoc(deps.skip(1), d);
        crate::seqs::lemma_concat_assoc(
            match deps[0].0 {
                Some(u) => "  [*] [url="@ + u + "]"@ + deps[0].1 + "[/url]\n"@,
                None => Seq::<char>::empty(),
            },
            spec_dep_lines(deps.skip(1)),
            line,
        );
    }
}

} // verus!
