use laspad::builder::{Action, Builder, ProtocolError};
use laspad::compile::compile;
use laspad::config::Config;
use laspad::item::Item;
use laspad::project::{DepRoot, Dependency, FsEntry, LocalDep, ModDir, Project, RemoteDep};
use laspad::rules::Cmd;

fn file(abs: &str, rel: &[&str]) -> FsEntry {
    FsEntry {
        abs: abs.to_string(),
        rel: rel.iter().map(|s| s.to_string()).collect(),
        is_dir: false,
    }
}

fn dir(abs: &str, rel: &[&str]) -> FsEntry {
    FsEntry {
        abs: abs.to_string(),
        rel: rel.iter().map(|s| s.to_string()).collect(),
        is_dir: true,
    }
}

fn bare_config() -> Config {
    Config { deps: Vec::new(), branches: Vec::new(), source_output_dir: None }
}

fn path(parts: &[&str]) -> Vec<String> {
    parts.iter().map(|s| s.to_string()).collect()
}

fn simple_project(listing: Vec<FsEntry>, local_deps: Vec<LocalDep>) -> Project {
    Project {
        path: "/proj".to_string(),
        config: bare_config(),
        root: ModDir { listing, settings: None },
        local_deps,
        remote_deps: Vec::new(),
    }
}

fn run_count(plan: &[Action]) -> usize {
    plan.iter().filter(|a| matches!(a, Action::Run { .. })).count()
}

#[test]
fn fan_out_level_rule_yields_three_outputs() {
    let listing = vec![
        dir("/proj/src", &["src"]),
        file("/proj/src/level.level", &["src", "level.level"]),
    ];
    let p = simple_project(listing, Vec::new());
    let plan = compile(&p, None);
    let mut runs = Vec::new();
    for a in &plan {
        if let Action::Run { cmd, outputs } = a {
            runs.push((cmd, outputs));
        }
    }
    assert_eq!(runs.len(), 1);
    let (cmd, outputs) = &runs[0];
    match cmd {
        Cmd::Overview { src } => assert_eq!(src, "/proj/src/level.level"),
        _ => panic!("expected the overview tool"),
    }
    assert_eq!(
        **outputs,
        vec![
            path(&["level.level"]),
            path(&["overviews", "level.tga"]),
            path(&["overviews", "level.hmp"]),
        ]
    );
}

#[test]
fn fan_out_cached_outputs_run_nothing() {
    let listing = vec![
        dir("/proj/src", &["src"]),
        file("/proj/src/level.level", &["src", "level.level"]),
    ];
    let p = simple_project(listing, Vec::new());
    let cache = vec![
        path(&["level.level"]),
        path(&["overviews", "level.tga"]),
        path(&["overviews", "level.hmp"]),
    ];
    let plan = compile(&p, Some(cache));
    assert_eq!(run_count(&plan), 0);
    let links: Vec<&Vec<String>> = plan
        .iter()
        .filter_map(|a| match a {
            Action::LinkCache { out } => Some(out),
            _ => None,
        })
        .collect();
    assert_eq!(links.len(), 3);
}

#[test]
fn compiling_twice_invokes_the_rule_once() {
    let listing = vec![
        dir("/proj/src", &["src"]),
        file("/proj/src/map.level", &["src", "map.level"]),
        file("/proj/src/readme.txt", &["src", "readme.txt"]),
    ];
    let p = simple_project(listing, Vec::new());

    let first = compile(&p, None);
    assert_eq!(run_count(&first), 1);

    // The previous output root now holds everything the first pass built.
    let mut previous: Vec<Vec<String>> = Vec::new();
    for a in &first {
        match a {
            Action::Run { outputs, .. } => previous.extend(outputs.iter().cloned()),
            Action::LinkSource { dst, .. } => previous.push(dst.clone()),
            _ => {}
        }
    }
    let second = compile(&p, Some(previous));
    assert_eq!(run_count(&second), 0);
    assert_eq!(run_count(&first) + run_count(&second), 1);
}

#[test]
fn normal_suffix_picks_normal_map_compression() {
    let dep_listing = vec![
        file("/dep/texture_normal.psd", &["texture_normal.psd"]),
        file("/dep/texture.psd", &["texture.psd"]),
    ];
    let p = simple_project(
        vec![
            dir("/proj/src", &["src"]),
            file("/proj/src/level.level", &["src", "level.level"]),
        ],
        vec![LocalDep {
            name: "textures".to_string(),
            root: DepRoot::Tree(ModDir { listing: dep_listing, settings: None }),
        }],
    );
    let plan = compile(&p, None);
    let mut normal_mode = None;
    let mut plain_mode = None;
    let mut level_outputs = None;
    for a in &plan {
        if let Action::Run { cmd, outputs } = a {
            match cmd {
                Cmd::NvCompress { normal, src, dst } => {
                    if src == "/dep/texture_normal.psd" {
                        normal_mode = Some(*normal);
                        assert_eq!(*dst, path(&["texture.dds"]));
                        assert_eq!(*outputs, vec![path(&["texture.dds"])]);
                    } else {
                        assert_eq!(src, "/dep/texture.psd");
                        plain_mode = Some(*normal);
                        assert_eq!(*dst, path(&["texture.dds"]));
                    }
                }
                Cmd::Overview { src } => {
                    assert_eq!(src, "/proj/src/level.level");
                    level_outputs = Some(outputs.clone());
                }
            }
        }
    }
    assert_eq!(normal_mode, Some(true));
    assert_eq!(plain_mode, Some(false));
    assert_eq!(
        level_outputs.unwrap(),
        vec![
            path(&["level.level"]),
            path(&["overviews", "level.tga"]),
            path(&["overviews", "level.hmp"]),
        ]
    );
}

#[test]
fn last_dependency_wins_collisions() {
    let dep = |n: usize| LocalDep {
        name: format!("dep{}", n),
        root: DepRoot::Tree(ModDir {
            listing: vec![file(&format!("/dep{}/a.txt", n), &["a.txt"])],
            settings: None,
        }),
    };
    let p = simple_project(Vec::new(), vec![dep(1), dep(2)]);
    let plan = compile(&p, None);
    let mut last_src = None;
    for a in &plan {
        if let Action::LinkSource { src, dst } = a {
            if *dst == path(&["a.txt"]) {
                last_src = Some(src.clone());
            }
        }
    }
    assert_eq!(last_src.as_deref(), Some("/dep2/a.txt"));
}

#[test]
fn hidden_entries_never_reach_the_output() {
    let listing = vec![
        dir("/proj/src", &["src"]),
        dir("/proj/src/.git", &["src", ".git"]),
        file("/proj/src/.git/config", &["src", ".git", "config"]),
        file("/proj/src/.modinfo", &["src", ".modinfo"]),
        file("/proj/src/kept.txt", &["src", "kept.txt"]),
    ];
    let p = simple_project(listing, Vec::new());
    let plan = compile(&p, None);
    for a in &plan {
        let written: Vec<&Vec<String>> = match a {
            Action::Dir { dst } => vec![dst],
            Action::LinkCache { out } => vec![out],
            Action::LinkSource { dst, .. } => vec![dst],
            Action::Run { outputs, .. } => outputs.iter().collect(),
        };
        for p in written {
            for c in p {
                assert!(!c.starts_with('.'), "hidden path written: {:?}", p);
            }
        }
    }
    let placed: Vec<&Vec<String>> = plan
        .iter()
        .filter_map(|a| match a {
            Action::LinkSource { dst, .. } => Some(dst),
            _ => None,
        })
        .collect();
    assert_eq!(placed, vec![&path(&["kept.txt"])]);
}

#[test]
fn passthrough_links_carry_the_source_path() {
    let listing = vec![
        dir("/proj/src", &["src"]),
        file("/proj/src/a.txt", &["src", "a.txt"]),
    ];
    let p = simple_project(listing, Vec::new());
    let plan = compile(&p, None);
    let mut found = false;
    for a in &plan {
        if let Action::LinkSource { src, dst } = a {
            assert_eq!(src, "/proj/src/a.txt");
            assert_eq!(*dst, path(&["a.txt"]));
            found = true;
        }
    }
    assert!(found);
}

#[test]
fn finalize_twice_is_detected() {
    let mut b = Builder::new(None);
    b.build("/proj/src/a.txt".to_string(), path(&["a.txt"]));
    assert_eq!(b.build_rest(), Ok(()));
    assert_eq!(b.build_rest(), Err(ProtocolError::AlreadyFinalized));
}

#[test]
fn passthrough_waits_for_finalize() {
    let mut b = Builder::new(None);
    b.build("/proj/src/a.txt".to_string(), path(&["a.txt"]));
    assert_eq!(b.actions.len(), 0);
    assert!(!b.rest_built);
    assert_eq!(b.build_rest(), Ok(()));
    assert!(b.rest_built);
    assert_eq!(b.actions.len(), 1);
}

#[test]
fn prebuilt_marker_walks_the_root() {
    let dep_listing = vec![
        file("/dep/.update_timestamp", &[".update_timestamp"]),
        dir("/dep/source", &["source"]),
        file("/dep/source/inner.txt", &["source", "inner.txt"]),
        file("/dep/top.txt", &["top.txt"]),
    ];
    let p = simple_project(
        Vec::new(),
        vec![LocalDep {
            name: "d".to_string(),
            root: DepRoot::Tree(ModDir { listing: dep_listing, settings: None }),
        }],
    );
    let plan = compile(&p, None);
    let placed: Vec<&Vec<String>> = plan
        .iter()
        .filter_map(|a| match a {
            Action::LinkSource { dst, .. } => Some(dst),
            _ => None,
        })
        .collect();
    // The root is walked as-is: both files land at their paths from the root.
    assert!(placed.contains(&&path(&["top.txt"])));
    assert!(placed.contains(&&path(&["source", "inner.txt"])));
}

#[test]
fn conventional_directories_are_all_walked() {
    let dep_listing = vec![
        dir("/dep/source", &["source"]),
        file("/dep/source/a.txt", &["source", "a.txt"]),
        dir("/dep/output", &["output"]),
        file("/dep/output/b.txt", &["output", "b.txt"]),
        file("/dep/stray.txt", &["stray.txt"]),
    ];
    let p = simple_project(
        Vec::new(),
        vec![LocalDep {
            name: "d".to_string(),
            root: DepRoot::Tree(ModDir { listing: dep_listing, settings: None }),
        }],
    );
    let plan = compile(&p, None);
    let placed: Vec<&Vec<String>> = plan
        .iter()
        .filter_map(|a| match a {
            Action::LinkSource { dst, .. } => Some(dst),
            _ => None,
        })
        .collect();
    assert!(placed.contains(&&path(&["a.txt"])));
    assert!(placed.contains(&&path(&["b.txt"])));
    assert!(!placed.contains(&&path(&["stray.txt"])));
}

#[test]
fn legacy_settings_pick_the_named_directories() {
    let settings = "\
name = \"m\"
description = \"d\"
image = \"i.jpg\"
publish_id = \"ab12\"
source_dir = \"stuff\"
output_dir = \"built\"
";
    let dep_listing = vec![
        dir("/dep/stuff", &["stuff"]),
        file("/dep/stuff/s.txt", &["stuff", "s.txt"]),
        dir("/dep/built", &["built"]),
        file("/dep/built/b.txt", &["built", "b.txt"]),
        dir("/dep/src", &["src"]),
        file("/dep/src/ignored.txt", &["src", "ignored.txt"]),
    ];
    let p = simple_project(
        Vec::new(),
        vec![LocalDep {
            name: "d".to_string(),
            root: DepRoot::Tree(ModDir {
                listing: dep_listing,
                settings: Some(settings.to_string()),
            }),
        }],
    );
    let plan = compile(&p, None);
    let placed: Vec<Vec<String>> = plan
        .iter()
        .filter_map(|a| match a {
            Action::LinkSource { dst, .. } => Some(dst.clone()),
            _ => None,
        })
        .collect();
    // Both named directories are walked, the output directory last.
    assert_eq!(placed, vec![path(&["s.txt"]), path(&["b.txt"])]);
}

#[test]
fn nested_project_merges_before_the_outer_source() {
    let inner = Project {
        path: "/proj/dependencies/inner".to_string(),
        config: bare_config(),
        root: ModDir {
            listing: vec![
                dir("/proj/dependencies/inner/src", &["src"]),
                file("/proj/dependencies/inner/src/both.txt", &["src", "both.txt"]),
            ],
            settings: None,
        },
        local_deps: Vec::new(),
        remote_deps: Vec::new(),
    };
    let p = Project {
        path: "/proj".to_string(),
        config: bare_config(),
        root: ModDir {
            listing: vec![
                dir("/proj/src", &["src"]),
                file("/proj/src/both.txt", &["src", "both.txt"]),
            ],
            settings: None,
        },
        local_deps: vec![LocalDep {
            name: "inner".to_string(),
            root: DepRoot::Project(Box::new(inner)),
        }],
        remote_deps: Vec::new(),
    };
    let plan = compile(&p, None);
    let mut last = None;
    for a in &plan {
        if let Action::LinkSource { src, dst } = a {
            if *dst == path(&["both.txt"]) {
                last = Some(src.clone());
            }
        }
    }
    // The project's own source merges last, so it overrides its dependency.
    assert_eq!(last.as_deref(), Some("/proj/src/both.txt"));
}

#[test]
fn remote_dependencies_follow_local_ones() {
    let p = Project {
        path: "/proj".to_string(),
        config: Config {
            deps: vec![Item(0xAB)],
            branches: Vec::new(),
            source_output_dir: None,
        },
        root: ModDir { listing: Vec::new(), settings: None },
        local_deps: vec![LocalDep {
            name: "loc".to_string(),
            root: DepRoot::Tree(ModDir {
                listing: vec![file("/proj/dependencies/loc/x.txt", &["x.txt"])],
                settings: None,
            }),
        }],
        remote_deps: vec![RemoteDep {
            item: Item(0xAB),
            root: DepRoot::Tree(ModDir {
                listing: vec![file("/cache/AB/x.txt", &["x.txt"])],
                settings: None,
            }),
        }],
    };
    let plan = compile(&p, None);
    let mut last = None;
    for a in &plan {
        if let Action::LinkSource { src, dst } = a {
            if *dst == path(&["x.txt"]) {
                last = Some(src.clone());
            }
        }
    }
    assert_eq!(last.as_deref(), Some("/cache/AB/x.txt"));

    let deps: Vec<Dependency> = p.dependencies();
    assert_eq!(deps.len(), 2);
    assert_eq!(deps[0].item, None);
    assert_eq!(deps[0].path, "/proj/dependencies/loc");
    assert_eq!(deps[1].item, Some(Item(0xAB)));
    assert_eq!(deps[1].path, "/proj/.dependencies_steam/AB");
}

#[test]
fn missing_dependency_contributes_nothing() {
    let p = simple_project(
        Vec::new(),
        vec![LocalDep { name: "gone".to_string(), root: DepRoot::Missing }],
    );
    let plan = compile(&p, None);
    assert!(plan
        .iter()
        .all(|a| !matches!(a, Action::LinkSource { .. } | Action::Run { .. })));
}

#[test]
fn unreadable_settings_fall_back_to_guessing() {
    // The legacy marker is present but lacks required keys, so the legacy
    // heuristic fails and the conventional directories are guessed instead.
    let dep_listing = vec![
        dir("/dep/src", &["src"]),
        file("/dep/src/a.txt", &["src", "a.txt"]),
    ];
    let p = simple_project(
        Vec::new(),
        vec![LocalDep {
            name: "d".to_string(),
            root: DepRoot::Tree(ModDir {
                listing: dep_listing,
                settings: Some("name = \"only a name\"\n".to_string()),
            }),
        }],
    );
    let plan = compile(&p, None);
    let placed: Vec<&Vec<String>> = plan
        .iter()
        .filter_map(|a| match a {
            Action::LinkSource { dst, .. } => Some(dst),
            _ => None,
        })
        .collect();
    assert_eq!(placed, vec![&path(&["a.txt"])]);
}

#[test]
fn explicit_override_prefers_the_output_directory() {
    let p = Project {
        path: "/proj".to_string(),
        config: Config {
            deps: Vec::new(),
            branches: Vec::new(),
            source_output_dir: Some((
                vec!["stuff".to_string()],
                vec!["built".to_string()],
            )),
        },
        root: ModDir {
            listing: vec![
                dir("/proj/stuff", &["stuff"]),
                file("/proj/stuff/s.txt", &["stuff", "s.txt"]),
                dir("/proj/built", &["built"]),
                file("/proj/built/b.txt", &["built", "b.txt"]),
            ],
            settings: None,
        },
        local_deps: Vec::new(),
        remote_deps: Vec::new(),
    };
    let plan = compile(&p, None);
    let placed: Vec<&Vec<String>> = plan
        .iter()
        .filter_map(|a| match a {
            Action::LinkSource { dst, .. } => Some(dst),
            _ => None,
        })
        .collect();
    assert_eq!(placed, vec![&path(&["b.txt"])]);
}

#[test]
fn marker_only_texture_keeps_its_stem() {
    // A texture named by the variant marker alone keeps its stem, so the
    // artifact does not turn into a hidden name.
    let p = simple_project(
        vec![
            dir("/proj/src", &["src"]),
            file("/proj/src/_normal.psd", &["src", "_normal.psd"]),
        ],
        Vec::new(),
    );
    let plan = compile(&p, None);
    let mut seen = None;
    for a in &plan {
        if let Action::Run { cmd, .. } = a {
            if let Cmd::NvCompress { normal, dst, .. } = cmd {
                seen = Some((*normal, dst.clone()));
            }
        }
    }
    assert_eq!(seen, Some((true, path(&["_normal.dds"]))));
}

#[test]
fn nested_texture_artifact_sits_beside_its_source() {
    let p = simple_project(
        vec![
            dir("/proj/src", &["src"]),
            dir("/proj/src/art", &["src", "art"]),
            file("/proj/src/art/wall_normal.psd", &["src", "art", "wall_normal.psd"]),
        ],
        Vec::new(),
    );
    let plan = compile(&p, None);
    let mut seen = None;
    for a in &plan {
        if let Action::Run { cmd, outputs } = a {
            if let Cmd::NvCompress { normal, dst, .. } = cmd {
                seen = Some((*normal, dst.clone(), outputs.clone()));
            }
        }
    }
    let (normal, dst, outputs) = seen.unwrap();
    assert!(normal);
    assert_eq!(dst, path(&["art", "wall.dds"]));
    assert_eq!(outputs, vec![path(&["art", "wall.dds"])]);
}
