use laspad::codec::{needs_update, u64_from_le_bytes, u64_to_le_bytes};
use laspad::config::{Branch, Config, DepInfo};
use laspad::item::Item;
use laspad::logger::{get, get_priority, log, remove, set_priority, Log, State};
use laspad::paths::{extension, is_hidden, name_ends_with, with_ext};
use laspad::launch::Program;
use laspad::project::{Dependency, ModDir, Project, UpdateError};

#[test]
fn timestamp_bytes_round_trip() {
    let bytes = u64_to_le_bytes(0x0102030405060708);
    assert_eq!(bytes, vec![8, 7, 6, 5, 4, 3, 2, 1]);
    assert_eq!(u64_from_le_bytes(&bytes), 0x0102030405060708);
    let max = u64_to_le_bytes(u64::MAX);
    assert_eq!(u64_from_le_bytes(&max), u64::MAX);
}

#[test]
fn update_runs_only_when_remote_is_newer() {
    assert!(needs_update(0, 1));
    assert!(!needs_update(5, 5));
    assert!(!needs_update(6, 5));
}

struct Recorder {
    lines: Vec<(i64, String)>,
}

impl Log for Recorder {
    fn write(&mut self, priority: i64, line: &str) {
        self.lines.push((priority, line.to_string()));
    }
}

#[test]
fn logger_threads_state_through() {
    let mut state: State<Recorder> = State::default();
    assert_eq!(get_priority(&state), -1);
    set_priority(&mut state, 2);
    assert_eq!(get_priority(&state), 2);
    laspad::logger::set(&mut state, Recorder { lines: Vec::new() });
    log(&mut state, 1, "dropped");
    log(&mut state, 2, "kept");
    log(&mut state, 3, "also kept");
    assert!(get(&state).is_some());
    let sink = remove(&mut state).unwrap();
    assert!(get(&state).is_none());
    assert_eq!(
        sink.lines,
        vec![(2, "kept".to_string()), (3, "also kept".to_string())]
    );
}

#[test]
fn name_operations_match_the_path_rules() {
    assert!(is_hidden(".git"));
    assert!(!is_hidden("src"));
    assert!(!is_hidden(""));
    assert_eq!(extension("level.level").as_deref(), Some("level"));
    assert_eq!(extension("archive.tar.gz").as_deref(), Some("gz"));
    assert_eq!(extension("noext"), None);
    assert_eq!(extension(".hidden"), None);
    assert_eq!(extension("trailing.").as_deref(), Some(""));
    assert_eq!(with_ext("level.level", "tga"), "level.tga");
    assert_eq!(with_ext("noext", "dds"), "noext.dds");
    assert!(name_ends_with("texture_normal.psd", "_normal.psd"));
    assert!(!name_ends_with("texture.psd", "_normal.psd"));
}

#[test]
fn dependency_name_prefers_the_declared_one() {
    let d = Dependency { item: None, path: "/proj/dependencies/alpha".to_string() };
    assert_eq!(d.name(Some("Alpha Mod".to_string())), "Alpha Mod");
    assert_eq!(d.name(None), "alpha");
}

#[test]
fn dependency_url_prefers_the_workshop_item() {
    let remote = Dependency { item: Some(Item(7)), path: "/x".to_string() };
    assert_eq!(
        remote.url(Some("ssh://elsewhere".to_string())).as_deref(),
        Some("https://steamcommunity.com/sharedfiles/filedetails/?id=7")
    );
    let local = Dependency { item: None, path: "/x".to_string() };
    assert_eq!(
        local.url(Some("ssh://origin".to_string())).as_deref(),
        Some("ssh://origin")
    );
    assert_eq!(local.url(None), None);
}

fn plain_branch() -> Branch {
    Branch {
        name: "m".to_string(),
        tags: Vec::new(),
        autodescription: None,
        description: None,
        description_str: Some("hand-written".to_string()),
        preview: None,
        website: None,
        item: None,
    }
}

#[test]
fn description_without_autodescription_is_the_custom_text() {
    let mut b = plain_branch();
    b.autodescription = Some(false);
    let r = b.description(Item(0xAB), None, None, &Vec::new());
    assert_eq!(r, "hand-written");
}

#[test]
fn description_assembles_all_blocks() {
    let mut b = plain_branch();
    b.website = Some("https://example.invalid/mod".to_string());
    let deps = vec![
        DepInfo { url: Some("https://example.invalid/dep".to_string()), name: "Dep One".to_string() },
        DepInfo { url: None, name: "No Link".to_string() },
    ];
    let head = "f00dcafe".to_string();
    let r = b.description(Item(0xAB), None, Some(&head), &deps);
    assert_eq!(
        r,
        "[b]Mod ID: AB[/b]\n\
         [b][url=https://example.invalid/mod]website[/url][/b]\n\
         current git commit: f00dcafe\n\n\
         Mods included: [list]\n\
         \u{20} [*] [url=https://example.invalid/dep]Dep One[/url]\n\
         [/list]\n\n\
         \nhand-written"
    );
}

#[test]
fn description_file_in_markdown_is_converted() {
    let mut b = plain_branch();
    b.autodescription = Some(false);
    b.description = Some("docs/readme.md".to_string());
    let text = "**bold**".to_string();
    let r = b.description(Item(1), Some(&text), None, &Vec::new());
    assert_eq!(r, "[b]bold[/b]");
    b.description = Some("docs/readme.txt".to_string());
    let r = b.description(Item(1), Some(&text), None, &Vec::new());
    assert_eq!(r, "**bold**");
}

#[test]
fn program_names_round_trip() {
    assert_eq!(Program::parse_str("ns2"), Some(Program::NS2));
    assert_eq!(Program::parse_str("editor"), Some(Program::Editor));
    assert_eq!(Program::parse_str("viewer"), None);
    assert_eq!(Program::NS2.name(), "ns2");
    assert_eq!(Program::Editor.name(), "editor");
}

#[test]
fn update_rejects_foreign_items() {
    let p = Project {
        path: "/proj".to_string(),
        config: Config {
            deps: vec![Item(1), Item(2)],
            branches: Vec::new(),
            source_output_dir: None,
        },
        root: ModDir { listing: Vec::new(), settings: None },
        local_deps: Vec::new(),
        remote_deps: Vec::new(),
    };
    assert_eq!(p.check_update(&vec![Item(2), Item(1)]), Ok(()));
    assert_eq!(p.check_update(&vec![Item(2), Item(9)]), Err(UpdateError::NotFound(Item(9))));
}
