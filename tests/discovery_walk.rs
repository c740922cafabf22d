use score_showcases::config::ParseError;
use score_showcases::discovery::{is_score_file, DirEntry, Discovery, DiscoveryError, EntryKind, Step};
use score_showcases::json::Json;

fn entry(path: &str, kind: EntryKind) -> DirEntry<String> {
    let name = path.rsplit('/').next().unwrap().to_string();
    DirEntry { path: path.to_string(), name: Some(name), kind }
}

fn doc(name: &str) -> Json {
    Json::Object(vec![
        ("name".to_string(), Json::Str(name.to_string())),
        ("description".to_string(), Json::Str("d".to_string())),
        ("apps".to_string(), Json::Array(vec![])),
    ])
}

fn step_path(step: Step<String>) -> (String, String) {
    match step {
        Step::ListDir(p) => ("list".to_string(), p),
        Step::LoadFile(p) => ("load".to_string(), p),
        Step::Finished => ("done".to_string(), String::new()),
    }
}

/// Runs the walk over a fixed tree, loading each file as an example named after its path.
fn walk(tree: &dyn Fn(&str) -> Vec<DirEntry<String>>) -> (Vec<String>, Vec<String>) {
    let mut d = Discovery::new("/root".to_string());
    let mut loads = Vec::new();
    loop {
        match d.next_step() {
            Step::ListDir(p) => d.on_listed(tree(&p)),
            Step::LoadFile(p) => {
                loads.push(p.clone());
                d.on_loaded(p.clone(), &doc(&p)).ok().unwrap();
            }
            Step::Finished => break,
        }
    }
    let names = d.into_catalog().into_iter().map(|c| c.name).collect();
    (loads, names)
}

#[test]
fn score_file_suffix() {
    assert!(is_score_file("demo.score.json"));
    assert!(is_score_file(".score.json"));
    assert!(!is_score_file("demo.json"));
    assert!(!is_score_file("score.json"));
    assert!(!is_score_file("demo.score.json.bak"));
    assert!(!is_score_file(""));
}

#[test]
fn empty_root_gives_empty_catalog() {
    let mut d: Discovery<String> = Discovery::new("/root".to_string());
    assert_eq!(step_path(d.next_step()), ("list".to_string(), "/root".to_string()));
    d.on_listed(vec![]);
    assert_eq!(step_path(d.next_step()).0, "done");
    assert!(d.into_catalog().is_empty());
}

#[test]
fn flat_root_loads_each_config_in_order() {
    let tree = |p: &str| -> Vec<DirEntry<String>> {
        if p == "/root" {
            vec![
                entry("/root/b.score.json", EntryKind::File),
                entry("/root/readme.md", EntryKind::File),
                entry("/root/a.score.json", EntryKind::File),
                entry("/root/c.score.json", EntryKind::File),
            ]
        } else {
            vec![]
        }
    };
    let (loads, names) = walk(&tree);
    assert_eq!(loads, vec!["/root/b.score.json", "/root/a.score.json", "/root/c.score.json"]);
    assert_eq!(names, loads);
    let (again, _) = walk(&tree);
    assert_eq!(again, loads);
}

#[test]
fn symlinks_are_never_loaded_nor_followed() {
    let tree = |p: &str| -> Vec<DirEntry<String>> {
        if p == "/root" {
            vec![
                entry("/root/link.score.json", EntryKind::Symlink),
                entry("/root/loop", EntryKind::Symlink),
                entry("/root/real.score.json", EntryKind::File),
            ]
        } else {
            panic!("listed {}", p)
        }
    };
    let (loads, names) = walk(&tree);
    assert_eq!(loads, vec!["/root/real.score.json"]);
    assert_eq!(names.len(), 1);
}

#[test]
fn subdirectories_are_visited_depth_first() {
    let tree = |p: &str| -> Vec<DirEntry<String>> {
        match p {
            "/root" => vec![
                entry("/root/one.score.json", EntryKind::File),
                entry("/root/sub", EntryKind::Dir),
                entry("/root/three.score.json", EntryKind::File),
            ],
            "/root/sub" => vec![entry("/root/sub/two.score.json", EntryKind::File)],
            _ => vec![],
        }
    };
    let (loads, _) = walk(&tree);
    assert_eq!(loads, vec!["/root/one.score.json", "/root/sub/two.score.json", "/root/three.score.json"]);
}

#[test]
fn name_that_is_not_unicode_is_not_loaded() {
    let mut d: Discovery<String> = Discovery::new("/root".to_string());
    d.next_step();
    d.on_listed(vec![DirEntry { path: "/root/x".to_string(), name: None, kind: EntryKind::File }]);
    assert_eq!(step_path(d.next_step()).0, "done");
}

#[test]
fn invalid_config_is_an_error_and_adds_nothing() {
    let mut d: Discovery<String> = Discovery::new("/root".to_string());
    d.next_step();
    d.on_listed(vec![
        entry("/root/a.score.json", EntryKind::File),
        entry("/root/b.score.json", EntryKind::File),
    ]);
    let (_, a) = step_path(d.next_step());
    assert!(d.on_loaded(a, &doc("a")).is_ok());
    let (_, b) = step_path(d.next_step());
    match d.on_loaded(b, &Json::Null) {
        Err(DiscoveryError::Invalid { path, error }) => {
            assert_eq!(path, "/root/b.score.json");
            assert_eq!(error, ParseError::NotAnObject { at: None });
        }
        _ => panic!("expected an invalid configuration"),
    }
    assert_eq!(d.into_catalog().len(), 1);
}
