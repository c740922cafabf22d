use score_showcases::config::{parse, to_json, ExampleConfig, Field, ParseError, ProcessSpec};
use score_showcases::json::{get_member, Json};

fn s(text: &str) -> Json {
    Json::Str(text.to_string())
}

fn obj(members: Vec<(&str, Json)>) -> Json {
    Json::Object(members.into_iter().map(|(k, v)| (k.to_string(), v)).collect())
}

fn demo_doc() -> Json {
    obj(vec![
        ("name", s("demo")),
        ("description", s("d")),
        (
            "apps",
            Json::Array(vec![obj(vec![
                ("path", s("/bin/true")),
                ("args", Json::Array(vec![])),
                ("env", Json::Object(vec![])),
                ("delay", Json::Unsigned(0)),
            ])]),
        ),
    ])
}

fn with_app(app: Json) -> Json {
    obj(vec![("name", s("n")), ("description", s("d")), ("apps", Json::Array(vec![app]))])
}

#[test]
fn parses_demo_document() {
    let c = parse(&demo_doc()).unwrap();
    assert_eq!(c.name, "demo");
    assert_eq!(c.description, "d");
    assert_eq!(c.processes.len(), 1);
    let p = &c.processes[0];
    assert_eq!(p.path, "/bin/true");
    assert!(p.dir.is_none());
    assert!(p.args.is_empty());
    assert!(p.env.is_empty());
    assert_eq!(p.delay, Some(0));
}

#[test]
fn optional_members_default_when_absent_or_null() {
    let c = parse(&with_app(obj(vec![("path", s("/bin/x")), ("dir", Json::Null), ("delay", Json::Null)]))).unwrap();
    let p = &c.processes[0];
    assert!(p.dir.is_none());
    assert!(p.args.is_empty());
    assert!(p.env.is_empty());
    assert_eq!(p.delay, None);
}

#[test]
fn reads_every_process_member() {
    let app = obj(vec![
        ("path", s("/usr/bin/app")),
        ("dir", s("/tmp")),
        ("args", Json::Array(vec![s("-v"), s("--x=1")])),
        ("env", obj(vec![("A", s("1")), ("B", s("2"))])),
        ("delay", Json::Unsigned(3)),
        ("unknown", Json::Bool(true)),
    ]);
    let c = parse(&with_app(app)).unwrap();
    let p = &c.processes[0];
    assert_eq!(p.dir.as_deref(), Some("/tmp"));
    assert_eq!(p.args, vec!["-v".to_string(), "--x=1".to_string()]);
    assert_eq!(p.env, vec![("A".to_string(), "1".to_string()), ("B".to_string(), "2".to_string())]);
    assert_eq!(p.delay, Some(3));
}

#[test]
fn round_trip_of_written_example() {
    let c = ExampleConfig {
        name: "two".to_string(),
        description: "two processes".to_string(),
        processes: vec![
            ProcessSpec {
                path: "/bin/a".to_string(),
                dir: Some("/work".to_string()),
                args: vec!["x".to_string(), "y".to_string()],
                env: vec![("K".to_string(), "V".to_string())],
                delay: Some(2),
            },
            ProcessSpec { path: "/bin/b".to_string(), dir: None, args: vec![], env: vec![], delay: None },
        ],
    };
    let back = parse(&to_json(&c)).unwrap();
    assert_eq!(back.name, c.name);
    assert_eq!(back.description, c.description);
    assert_eq!(back.processes.len(), 2);
    for (a, b) in back.processes.iter().zip(c.processes.iter()) {
        assert_eq!(a.path, b.path);
        assert_eq!(a.dir, b.dir);
        assert_eq!(a.args, b.args);
        assert_eq!(a.env, b.env);
        assert_eq!(a.delay, b.delay);
    }
}

#[test]
fn written_document_holds_the_fields() {
    let c = parse(&demo_doc()).unwrap();
    let doc = to_json(&c);
    let Json::Object(fields) = &doc else { panic!("not an object") };
    assert!(matches!(get_member(fields, "name"), Some(Json::Str(n)) if n == "demo"));
    assert!(matches!(get_member(fields, "apps"), Some(Json::Array(items)) if items.len() == 1));
}

#[test]
fn later_member_wins() {
    let fields = vec![("k".to_string(), s("first")), ("k".to_string(), s("second"))];
    assert!(matches!(get_member(&fields, "k"), Some(Json::Str(v)) if v == "second"));
    assert!(get_member(&fields, "other").is_none());
}

#[test]
fn document_errors() {
    assert_eq!(parse(&s("x")).err(), Some(ParseError::NotAnObject { at: None }));
    assert_eq!(
        parse(&obj(vec![("description", s("d"))])).err(),
        Some(ParseError::Missing { at: None, field: Field::Name })
    );
    assert_eq!(
        parse(&obj(vec![("name", Json::Unsigned(1))])).err(),
        Some(ParseError::WrongType { at: None, field: Field::Name })
    );
    assert_eq!(
        parse(&obj(vec![("name", s("n"))])).err(),
        Some(ParseError::Missing { at: None, field: Field::Description })
    );
    assert_eq!(
        parse(&obj(vec![("name", s("n")), ("description", s("d"))])).err(),
        Some(ParseError::Missing { at: None, field: Field::Apps })
    );
    assert_eq!(
        parse(&obj(vec![("name", s("n")), ("description", s("d")), ("apps", Json::Null)])).err(),
        Some(ParseError::WrongType { at: None, field: Field::Apps })
    );
}

#[test]
fn process_errors() {
    assert_eq!(parse(&with_app(s("p"))).err(), Some(ParseError::NotAnObject { at: Some(1) }));
    assert_eq!(
        parse(&with_app(obj(vec![("args", Json::Array(vec![]))]))).err(),
        Some(ParseError::Missing { at: Some(1), field: Field::Path })
    );
    assert_eq!(
        parse(&with_app(obj(vec![("path", Json::Null)]))).err(),
        Some(ParseError::WrongType { at: Some(1), field: Field::Path })
    );
    assert_eq!(parse(&with_app(obj(vec![("path", s(""))]))).err(), Some(ParseError::EmptyPath { app: 1 }));
    assert_eq!(
        parse(&with_app(obj(vec![("path", s("p")), ("dir", Json::Bool(false))]))).err(),
        Some(ParseError::WrongType { at: Some(1), field: Field::Dir })
    );
    assert_eq!(
        parse(&with_app(obj(vec![("path", s("p")), ("args", Json::Array(vec![s("a"), Json::Unsigned(1)]))]))).err(),
        Some(ParseError::WrongType { at: Some(1), field: Field::Args })
    );
    assert_eq!(
        parse(&with_app(obj(vec![("path", s("p")), ("env", obj(vec![("A", Json::Unsigned(1))]))]))).err(),
        Some(ParseError::WrongType { at: Some(1), field: Field::Env })
    );
    assert_eq!(
        parse(&with_app(obj(vec![("path", s("p")), ("env", obj(vec![("A", s("1")), ("A", s("2"))]))]))).err(),
        Some(ParseError::DuplicateEnvKey { app: 1 })
    );
    assert_eq!(
        parse(&with_app(obj(vec![("path", s("p")), ("delay", Json::OtherNumber("-1".to_string()))]))).err(),
        Some(ParseError::WrongType { at: Some(1), field: Field::Delay })
    );
    assert_eq!(
        parse(&with_app(obj(vec![("path", s("p")), ("delay", s("2"))]))).err(),
        Some(ParseError::WrongType { at: Some(1), field: Field::Delay })
    );
}

#[test]
fn first_faulty_entry_is_reported() {
    let doc = obj(vec![
        ("name", s("n")),
        ("description", s("d")),
        (
            "apps",
            Json::Array(vec![obj(vec![("path", s("ok"))]), obj(vec![("path", s(""))]), s("bad")]),
        ),
    ]);
    assert_eq!(parse(&doc).err(), Some(ParseError::EmptyPath { app: 2 }));
}
