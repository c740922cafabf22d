//! The configuration model of an example, and how a document maps to it.

use vstd::prelude::*;
use crate::json::{Json, member, get_member};

verus! {

/// One child process of an example.
#[derive(Clone, Debug)]
pub struct ProcessSpec {
    /// Executable to start; never empty.
    pub path: String,
    /// Working directory; `None` keeps the launcher's own.
    pub dir: Option<String>,
    /// Arguments, in order.
    pub args: Vec<String>,
    /// Environment overrides, each name at most once.
    pub env: Vec<(String, String)>,
    /// Seconds to wait before the process is started.
    pub delay: Option<u64>,
}

/// A named, described group of processes that are run together.
#[derive(Clone, Debug)]
pub struct ExampleConfig {
    pub name: String,
    pub description: String,
    /// The processes, in launch and numbering order.
    pub processes: Vec<ProcessSpec>,
}

/// Mathematical value of a [`ProcessSpec`].
pub struct ProcessModel {
    pub path: Seq<char>,
    pub dir: Option<Seq<char>>,
    pub args: Seq<Seq<char>>,
    pub env: Seq<(Seq<char>, Seq<char>)>,
    pub delay: Option<u64>,
}

/// Mathematical value of an [`ExampleConfig`].
pub struct ExampleModel {
    pub name: Seq<char>,
    pub description: Seq<char>,
    pub processes: Seq<ProcessModel>,
}

pub open spec fn opt_text_view(o: Option<String>) -> Option<Seq<char>> {
    match o {
        Some(s) => Some(s@),
        None => None,
    }
}

pub open spec fn texts_view(v: Seq<String>) -> Seq<Seq<char>> {
    v.map_values(|s: String| s@)
}

pub open spec fn pairs_view(v: Seq<(String, String)>) -> Seq<(Seq<char>, Seq<char>)> {
    v.map_values(|p: (String, String)| (p.0@, p.1@))
}

impl View for ProcessSpec {
    type V = ProcessModel;

    open spec fn view(&self) -> ProcessModel {
        ProcessModel {
            path: self.path@,
            dir: opt_text_view(self.dir),
            args: texts_view(self.args@),
            env: pairs_view(self.env@),
            delay: self.delay,
        }
    }
}

pub open spec fn processes_view(v: Seq<ProcessSpec>) -> Seq<ProcessModel> {
    v.map_values(|p: ProcessSpec| p@)
}

impl View for ExampleConfig {
    type V = ExampleModel;

    open spec fn view(&self) -> ExampleModel {
        ExampleModel {
            name: self.name@,
            description: self.description@,
            processes: processes_view(self.processes@),
        }
    }
}

/// The names of an environment mapping, in order.
pub open spec fn env_keys(env: Seq<(Seq<char>, Seq<char>)>) -> Seq<Seq<char>> {
    env.map_values(|p: (Seq<char>, Seq<char>)| p.0)
}

/// No name occurs twice in an environment mapping.
pub open spec fn keys_unique(env: Seq<(Seq<char>, Seq<char>)>) -> bool {
    forall|i: int, j: int|
        0 <= i < j < env.len() ==> #[trigger] env[i].0 != #[trigger] env[j].0
}

impl ProcessModel {
    /// A usable process: a non-empty path and unique environment names.
    pub open spec fn valid(self) -> bool {
        &&& self.path.len() > 0
        &&& keys_unique(self.env)
    }
}

impl ExampleModel {
    pub open spec fn valid(self) -> bool {
        forall|i: int| 0 <= i < self.processes.len() ==> #[trigger] self.processes[i].valid()
    }
}

/// A member of a configuration document.
#[derive(Clone, Copy, Debug, PartialEq, Eq, Structural)]
pub enum Field {
    Name,
    Description,
    Apps,
    Path,
    Dir,
    Args,
    Env,
    Delay,
}

/// Why a document is not a valid example configuration. `app` is the
/// 1-based number of the process entry at fault; `at` is that number, or
/// `None` where the document itself is at fault.
#[derive(Clone, Copy, Debug, PartialEq, Eq, Structural)]
pub enum ParseError {
    NotAnObject { at: Option<usize> },
    Missing { at: Option<usize>, field: Field },
    WrongType { at: Option<usize>, field: Field },
    EmptyPath { app: usize },
    DuplicateEnvKey { app: usize },
}

/// The strings of an array, or `None` if one of its items is not a string.
pub open spec fn texts_of(items: Seq<Json>) -> Option<Seq<Seq<char>>>
    decreases items.len(),
{
    if items.len() == 0 {
        Some(seq![])
    } else {
        match (texts_of(items.drop_last()), items.last()) {
            (Some(prev), Json::Str(s)) => Some(prev.push(s@)),
            _ => None,
        }
    }
}

/// The environment mapping held by the members of an object.
pub open spec fn env_of_members(fields: Seq<(String, Json)>, app: usize) -> Result<
    Seq<(Seq<char>, Seq<char>)>,
    ParseError,
>
    decreases fields.len(),
{
    if fields.len() == 0 {
        Ok(seq![])
    } else {
        match env_of_members(fields.drop_last(), app) {
            Err(e) => Err(e),
            Ok(prev) => match fields.last().1 {
                Json::Str(v) => if env_keys(prev).contains(fields.last().0@) {
                    Err(ParseError::DuplicateEnvKey { app })
                } else {
                    Ok(prev.push((fields.last().0@, v@)))
                },
                _ => Err(ParseError::WrongType { at: Some(app), field: Field::Env }),
            },
        }
    }
}

proof fn lemma_texts_of_stays_none(items: Seq<Json>, k: int)
    requires
        0 <= k <= items.len(),
        texts_of(items.subrange(0, k)) is None,
    ensures
        texts_of(items) is None,
    decreases items.len() - k,
{
    if k == items.len() {
        assert(items.subrange(0, k) =~= items);
    } else {
        assert(items.subrange(0, k + 1).drop_last() =~= items.subrange(0, k));
        lemma_texts_of_stays_none(items, k + 1);
    }
}

/// Reads the strings of an array.
fn parse_texts(items: &Vec<Json>) -> (r: Option<Vec<String>>)
    ensures
        match r {
            Some(v) => texts_of(items@) == Some(texts_view(v@)),
            None => texts_of(items@) is None,
        },
{
    let mut out: Vec<String> = Vec::new();
    let mut i: usize = 0;
    while i < items.len()
        invariant
            i <= items@.len(),
            texts_of(items@.subrange(0, i as int)) == Some(texts_view(out@)),
        decreases items@.len() - i,
    {
        let ghost prefix = items@.subrange(0, i as int + 1);
        assert(prefix.drop_last() =~= items@.subrange(0, i as int));
        match &items[i] {
            Json::Str(s) => {
                let ghost before = out@;
                out.push(s.clone());
                assert(texts_view(out@) =~= texts_view(before).push(s@));
            },
            _ => {
                proof {
                    lemma_texts_of_stays_none(items@, i as int + 1);
                }
                return None;
            },
        }
        i = i + 1;
    }
    assert(items@.subrange(0, items@.len() as int) =~= items@);
    Some(out)
}

proof fn lemma_env_error_stays(fields: Seq<(String, Json)>, app: usize, k: int)
    requires
        0 <= k <= fields.len(),
        env_of_members(fields.subrange(0, k), app) is Err,
    ensures
        env_of_members(fields, app) == env_of_members(fields.subrange(0, k), app),
    decreases fields.len() - k,
{
    if k == fields.len() {
        assert(fields.subrange(0, k) =~= fields);
    } else {
        assert(fields.subrange(0, k + 1).drop_last() =~= fields.subrange(0, k));
        lemma_env_error_stays(fields, app, k + 1);
    }
}

/// Reads an environment mapping from the members of an object.
fn parse_env(fields: &Vec<(String, Json)>, app: usize) -> (r: Result<Vec<(String, String)>, ParseError>)
    ensures
        match r {
            Ok(v) => env_of_members(fields@, app) == Ok::<_, ParseError>(pairs_view(v@)),
            Err(e) => env_of_members(fields@, app) == Err::<Seq<(Seq<char>, Seq<char>)>, ParseError>(e),
        },
{
    let mut out: Vec<(String, String)> = Vec::new();
    let mut i: usize = 0;
    assert(pairs_view(out@) =~= seq![]);
    while i < fields.len()
        invariant
            i <= fields@.len(),
            env_of_members(fields@.subrange(0, i as int), app) == Ok::<_, ParseError>(pairs_view(out@)),
        decreases fields@.len() - i,
    {
        let ghost prefix = fields@.subrange(0, i as int + 1);
        assert(prefix.drop_last() =~= fields@.subrange(0, i as int));
        let key = &fields[i].0;
        match &fields[i].1 {
            Json::Str(v) => {
                let mut j: usize = 0;
                while j < out.len()
                    invariant
                        i < fields@.len(),
                        key == &fields@[i as int].0,
                        fields@[i as int].1 == Json::Str(*v),
                        env_of_members(fields@.subrange(0, i as int), app) == Ok::<_, ParseError>(pairs_view(out@)),
                        j <= out@.len(),
                        forall|k: int| 0 <= k < j ==> out@[k].0@ != key@,
                    decreases out@.len() - j,
                {
                    if out[j].0 == *key {
                        proof {
                            let keys = env_keys(pairs_view(out@));
                            assert(keys[j as int] == key@);
                            assert(keys.contains(key@));
                            assert(fields@.subrange(0, i as int + 1).drop_last() =~= fields@.subrange(0, i as int));
                            lemma_env_error_stays(fields@, app, i as int + 1);
                        }
                        return Err(ParseError::DuplicateEnvKey { app });
                    }
                    j = j + 1;
                }
                let ghost before = out@;
                assert(!env_keys(pairs_view(before)).contains(key@)) by {
                    if env_keys(pairs_view(before)).contains(key@) {
                        let k = choose|k: int| 0 <= k < before.len() && env_keys(pairs_view(before))[k] == key@;
                        assert(out@[k].0@ == key@);
                    }
                }
                out.push((key.clone(), v.clone()));
                assert(pairs_view(out@) =~= pairs_view(before).push((key@, v@)));
            },
            _ => {
                proof {
                    lemma_env_error_stays(fields@, app, i as int + 1);
                }
                return Err(ParseError::WrongType { at: Some(app), field: Field::Env });
            },
        }
        i = i + 1;
    }
    assert(fields@.subrange(0, fields@.len() as int) =~= fields@);
    Ok(out)
}

/// An optional string member: absent or null gives `None`.
pub open spec fn opt_text_of(j: Option<Json>) -> Option<Option<Seq<char>>> {
    match j {
        None => Some(None),
        Some(Json::Null) => Some(None),
        Some(Json::Str(s)) => Some(Some(s@)),
        _ => None,
    }
}

/// The argument list member: absent or null gives no arguments.
pub open spec fn args_of(j: Option<Json>) -> Option<Seq<Seq<char>>> {
    match j {
        None => Some(seq![]),
        Some(Json::Null) => Some(seq![]),
        Some(Json::Array(items)) => texts_of(items@),
        _ => None,
    }
}

/// The environment member: absent or null gives an empty mapping.
pub open spec fn env_of(j: Option<Json>, app: usize) -> Result<Seq<(Seq<char>, Seq<char>)>, ParseError> {
    match j {
        None => Ok(seq![]),
        Some(Json::Null) => Ok(seq![]),
        Some(Json::Object(fields)) => env_of_members(fields@, app),
        _ => Err(ParseError::WrongType { at: Some(app), field: Field::Env }),
    }
}

/// The delay member: absent or null gives no delay.
pub open spec fn delay_of(j: Option<Json>) -> Option<Option<u64>> {
    match j {
        None => Some(None),
        Some(Json::Null) => Some(None),
        Some(Json::Unsigned(n)) => Some(Some(n)),
        _ => None,
    }
}

/// The process described by entry number `app` of the process array.
pub open spec fn process_of(j: Json, app: usize) -> Result<ProcessModel, ParseError> {
    match j {
        Json::Object(fields) => {
            let f = fields@;
            match member(f, "path"@) {
                None => Err(ParseError::Missing { at: Some(app), field: Field::Path }),
                Some(Json::Str(p)) => if p@.len() == 0 {
                    Err(ParseError::EmptyPath { app })
                } else {
                    match opt_text_of(member(f, "dir"@)) {
                        None => Err(ParseError::WrongType { at: Some(app), field: Field::Dir }),
                        Some(dir) => match args_of(member(f, "args"@)) {
                            None => Err(ParseError::WrongType { at: Some(app), field: Field::Args }),
                            Some(args) => match env_of(member(f, "env"@), app) {
                                Err(e) => Err(e),
                                Ok(env) => match delay_of(member(f, "delay"@)) {
                                    None => Err(
                                        ParseError::WrongType { at: Some(app), field: Field::Delay },
                                    ),
                                    Some(delay) => Ok(ProcessModel { path: p@, dir, args, env, delay }),
                                },
                            },
                        },
                    }
                },
                Some(_) => Err(ParseError::WrongType { at: Some(app), field: Field::Path }),
            }
        },
        _ => Err(ParseError::NotAnObject { at: Some(app) }),
    }
}

/// Reads one entry of the process array.
fn parse_process(j: &Json, app: usize) -> (r: Result<ProcessSpec, ParseError>)
    ensures
        match r {
            Ok(p) => process_of(*j, app) == Ok::<_, ParseError>(p@),
            Err(e) => process_of(*j, app) == Err::<ProcessModel, _>(e),
        },
{
    let fields = match j {
        Json::Object(fields) => fields,
        _ => {
            return Err(ParseError::NotAnObject { at: Some(app) });
        },
    };
    let path = match get_member(fields, "path") {
        None => {
            return Err(ParseError::Missing { at: Some(app), field: Field::Path });
        },
        Some(Json::Str(p)) => p,
        Some(_) => {
            return Err(ParseError::WrongType { at: Some(app), field: Field::Path });
        },
    };
    if path.as_str().is_empty() {
        return Err(ParseError::EmptyPath { app });
    }
    let dir = match get_member(fields, "dir") {
        None => None,
        Some(Json::Null) => None,
        Some(Json::Str(d)) => Some(d.clone()),
        Some(_) => {
            return Err(ParseError::WrongType { at: Some(app), field: Field::Dir });
        },
    };
    let args = match get_member(fields, "args") {
        None => Vec::new(),
        Some(Json::Null) => Vec::new(),
        Some(Json::Array(items)) => match parse_texts(items) {
            Some(v) => v,
            None => {
                return Err(ParseError::WrongType { at: Some(app), field: Field::Args });
            },
        },
        Some(_) => {
            return Err(ParseError::WrongType { at: Some(app), field: Field::Args });
        },
    };
    let env = match get_member(fields, "env") {
        None => Vec::new(),
        Some(Json::Null) => Vec::new(),
        Some(Json::Object(members)) => match parse_env(members, app) {
            Ok(v) => v,
            Err(e) => {
                return Err(e);
            },
        },
        Some(_) => {
            return Err(ParseError::WrongType { at: Some(app), field: Field::Env });
        },
    };
    let delay = match get_member(fields, "delay") {
        None => None,
        Some(Json::Null) => None,
        Some(Json::Unsigned(n)) => Some(*n),
        Some(_) => {
            return Err(ParseError::WrongType { at: Some(app), field: Field::Delay });
        },
    };
    let r = ProcessSpec { path: path.clone(), dir, args, env, delay };
    assert(texts_view(r.args@) =~= texts_view(args@));
    proof {
        if r.args@.len() == 0 {
            assert(texts_view(r.args@) =~= seq![]);
        }
        if r.env@.len() == 0 {
            assert(pairs_view(r.env@) =~= seq![]);
        }
    }
    Ok(r)
}

/// The processes described by a process array, or the error of its first
/// faulty entry.
pub open spec fn processes_of(items: Seq<Json>) -> Result<Seq<ProcessModel>, ParseError>
    decreases items.len(),
{
    if items.len() == 0 {
        Ok(seq![])
    } else {
        match processes_of(items.drop_last()) {
            Err(e) => Err(e),
            Ok(prev) => match process_of(items.last(), items.len() as usize) {
                Err(e) => Err(e),
                Ok(p) => Ok(prev.push(p)),
            },
        }
    }
}

/// A required string member of the document itself.
pub open spec fn required_text_of(j: Option<Json>, field: Field) -> Result<Seq<char>, ParseError> {
    match j {
        None => Err(ParseError::Missing { at: None, field }),
        Some(Json::Str(s)) => Ok(s@),
        Some(_) => Err(ParseError::WrongType { at: None, field }),
    }
}

/// The example that a document describes, or why it describes none.
pub open spec fn example_of(doc: Json) -> Result<ExampleModel, ParseError> {
    match doc {
        Json::Object(fields) => {
            let f = fields@;
            match required_text_of(member(f, "name"@), Field::Name) {
                Err(e) => Err(e),
                Ok(name) => match required_text_of(member(f, "description"@), Field::Description) {
                    Err(e) => Err(e),
                    Ok(description) => match member(f, "apps"@) {
                        None => Err(ParseError::Missing { at: None, field: Field::Apps }),
                        Some(Json::Array(items)) => match processes_of(items@) {
                            Err(e) => Err(e),
                            Ok(processes) => Ok(ExampleModel { name, description, processes }),
                        },
                        Some(_) => Err(ParseError::WrongType { at: None, field: Field::Apps }),
                    },
                },
            }
        },
        _ => Err(ParseError::NotAnObject { at: None }),
    }
}

proof fn lemma_processes_error_stays(items: Seq<Json>, k: int)
    requires
        0 <= k <= items.len(),
        processes_of(items.subrange(0, k)) is Err,
    ensures
        processes_of(items) == processes_of(items.subrange(0, k)),
    decreases items.len() - k,
{
    if k == items.len() {
        assert(items.subrange(0, k) =~= items);
    } else {
        assert(items.subrange(0, k + 1).drop_last() =~= items.subrange(0, k));
        lemma_processes_error_stays(items, k + 1);
    }
}

/// Reads the process array.
fn parse_processes(items: &Vec<Json>) -> (r: Result<Vec<ProcessSpec>, ParseError>)
    ensures
        match r {
            Ok(v) => processes_of(items@) == Ok::<_, ParseError>(processes_view(v@)),
            Err(e) => processes_of(items@) == Err::<Seq<ProcessModel>, _>(e),
        },
{
    let mut out: Vec<ProcessSpec> = Vec::new();
    let mut i: usize = 0;
    assert(processes_view(out@) =~= seq![]);
    while i < items.len()
        invariant
            i <= items@.len(),
            processes_of(items@.subrange(0, i as int)) == Ok::<_, ParseError>(processes_view(out@)),
        decreases items@.len() - i,
    {
        let ghost prefix = items@.subrange(0, i as int + 1);
        assert(prefix.drop_last() =~= items@.subrange(0, i as int));
        match parse_process(&items[i], i + 1) {
            Ok(p) => {
                let ghost before = out@;
                out.push(p);
                assert(processes_view(out@) =~= processes_view(before).push(p@));
            },
            Err(e) => {
                proof {
                    lemma_processes_error_stays(items@, i as int + 1);
                }
                return Err(e);
            },
        }
        i = i + 1;
    }
    assert(items@.subrange(0, items@.len() as int) =~= items@);
    Ok(out)
}

/// Reads a required string member of the document itself.
fn required_text(fields: &Vec<(String, Json)>, key: &str, field: Field) -> (r: Result<String, ParseError>)
    ensures
        match r {
            Ok(s) => required_text_of(member(fields@, key@), field) == Ok::<_, ParseError>(s@),
            Err(e) => required_text_of(member(fields@, key@), field) == Err::<Seq<char>, _>(e),
        },
{
    match get_member(fields, key) {
        None => Err(ParseError::Missing { at: None, field }),
        Some(Json::Str(s)) => Ok(s.clone()),
        Some(_) => Err(ParseError::WrongType { at: None, field }),
    }
}

proof fn lemma_env_unique(fields: Seq<(String, Json)>, app: usize)
    ensures
        env_of_members(fields, app) matches Ok(env) ==> keys_unique(env),
    decreases fields.len(),
{
    if fields.len() > 0 {
        lemma_env_unique(fields.drop_last(), app);
        if let Ok(env) = env_of_members(fields, app) {
            let prev = env_of_members(fields.drop_last(), app)->Ok_0;
            let key = fields.last().0@;
            assert(env == prev.push((key, env.last().1)));
            assert forall|i: int, j: int| 0 <= i < j < env.len() implies #[trigger] env[i].0 != #[trigger] env[j].0 by {
                if j == env.len() - 1 {
                    assert(env_keys(prev)[i] == prev[i].0);
                    assert(!env_keys(prev).contains(key));
                } else {
                    assert(env[i] == prev[i] && env[j] == prev[j]);
                }
            }
        }
    }
}

proof fn lemma_processes_valid(items: Seq<Json>)
    ensures
        processes_of(items) matches Ok(ps) ==> forall|i: int| 0 <= i < ps.len() ==> #[trigger] ps[i].valid(),
    decreases items.len(),
{
    if items.len() > 0 {
        lemma_processes_valid(items.drop_last());
        if let Ok(ps) = processes_of(items) {
            let last = items.last();
            let app = items.len() as usize;
            if let Json::Object(fields) = last {
                if let Some(Json::Object(members)) = member(fields@, "env"@) {
                    lemma_env_unique(members@, app);
                }
            }
            let prev = processes_of(items.drop_last())->Ok_0;
            assert forall|i: int| 0 <= i < ps.len() implies #[trigger] ps[i].valid() by {
                if i < ps.len() - 1 {
                    assert(ps[i] == prev[i]);
                }
            }
        }
    }
}

/// Reads an example configuration from a document.
///
/// The document is an object with the string members `name` and
/// `description` and the array `apps`, whose entries are objects with a
/// non-empty string `path` and the optional members `dir` (string), `args`
/// (array of strings), `env` (object of strings) and `delay` (non-negative
/// integer seconds). Other members are ignored. The result is all or
/// nothing: the first fault found, in document order, is the error.
pub fn parse(doc: &Json) -> (r: Result<ExampleConfig, ParseError>)
    ensures
        match r {
            Ok(c) => example_of(*doc) == Ok::<_, ParseError>(c@) && c@.valid(),
            Err(e) => example_of(*doc) == Err::<ExampleModel, _>(e),
        },
{
    let fields = match doc {
        Json::Object(fields) => fields,
        _ => {
            return Err(ParseError::NotAnObject { at: None });
        },
    };
    let name = match required_text(fields, "name", Field::Name) {
        Ok(s) => s,
        Err(e) => {
            return Err(e);
        },
    };
    let description = match required_text(fields, "description", Field::Description) {
        Ok(s) => s,
        Err(e) => {
            return Err(e);
        },
    };
    let processes = match get_member(fields, "apps") {
        None => {
            return Err(ParseError::Missing { at: None, field: Field::Apps });
        },
        Some(Json::Array(items)) => match parse_processes(items) {
            Ok(v) => {
                proof {
                    lemma_processes_valid(items@);
                }
                v
            },
            Err(e) => {
                return Err(e);
            },
        },
        Some(_) => {
            return Err(ParseError::WrongType { at: None, field: Field::Apps });
        },
    };
    Ok(ExampleConfig { name, description, processes })
}

/// `j` is the string `s`.
pub open spec fn is_text(j: Json, s: Seq<char>) -> bool {
    j matches Json::Str(t) && t@ == s
}

/// `j` is `s`, or null where `s` is `None`.
pub open spec fn encodes_opt_text(j: Json, s: Option<Seq<char>>) -> bool {
    match s {
        None => j == Json::Null,
        Some(t) => is_text(j, t),
    }
}

/// `j` is the array of the strings `v`.
pub open spec fn encodes_texts(j: Json, v: Seq<Seq<char>>) -> bool {
    &&& j matches Json::Array(items)
    &&& items@.len() == v.len()
    &&& forall|i: int| 0 <= i < v.len() ==> is_text(#[trigger] items@[i], v[i])
}

/// `j` is the object that maps each name of `env` to its value, in order.
pub open spec fn encodes_env(j: Json, env: Seq<(Seq<char>, Seq<char>)>) -> bool {
    &&& j matches Json::Object(fields)
    &&& fields@.len() == env.len()
    &&& forall|i: int|
        0 <= i < env.len() ==> (#[trigger] fields@[i]).0@ == env[i].0 && is_text(fields@[i].1, env[i].1)
}

/// `j` is `d`, or null where `d` is `None`.
pub open spec fn encodes_delay(j: Json, d: Option<u64>) -> bool {
    match d {
        None => j == Json::Null,
        Some(n) => j == Json::Unsigned(n),
    }
}

/// `j` is the document written for the process `p`: an object with the
/// members `path`, `dir`, `args`, `env` and `delay`, in that order.
pub open spec fn encodes_process(j: Json, p: ProcessModel) -> bool {
    &&& j matches Json::Object(fields)
    &&& fields@.len() == 5
    &&& fields@[0].0@ == "path"@ && is_text(fields@[0].1, p.path)
    &&& fields@[1].0@ == "dir"@ && encodes_opt_text(fields@[1].1, p.dir)
    &&& fields@[2].0@ == "args"@ && encodes_texts(fields@[2].1, p.args)
    &&& fields@[3].0@ == "env"@ && encodes_env(fields@[3].1, p.env)
    &&& fields@[4].0@ == "delay"@ && encodes_delay(fields@[4].1, p.delay)
}

/// `j` is the document written for the example `m`: an object with the
/// members `name`, `description` and `apps`, in that order.
pub open spec fn encodes_example(j: Json, m: ExampleModel) -> bool {
    &&& j matches Json::Object(fields)
    &&& fields@.len() == 3
    &&& fields@[0].0@ == "name"@ && is_text(fields@[0].1, m.name)
    &&& fields@[1].0@ == "description"@ && is_text(fields@[1].1, m.description)
    &&& fields@[2].0@ == "apps"@
    &&& fields@[2].1 matches Json::Array(items)
    &&& items@.len() == m.processes.len()
    &&& forall|i: int| 0 <= i < items@.len() ==> encodes_process(#[trigger] items@[i], m.processes[i])
}

fn opt_text_to_json(s: &Option<String>) -> (r: Json)
    ensures
        encodes_opt_text(r, opt_text_view(*s)),
{
    match s {
        None => Json::Null,
        Some(t) => Json::Str(t.clone()),
    }
}

fn texts_to_json(v: &Vec<String>) -> (r: Json)
    ensures
        encodes_texts(r, texts_view(v@)),
{
    let mut items: Vec<Json> = Vec::new();
    let mut i: usize = 0;
    while i < v.len()
        invariant
            i <= v@.len(),
            items@.len() == i,
            forall|k: int| 0 <= k < i ==> is_text(#[trigger] items@[k], v@[k]@),
        decreases v@.len() - i,
    {
        items.push(Json::Str(v[i].clone()));
        i = i + 1;
    }
    Json::Array(items)
}

fn env_to_json(env: &Vec<(String, String)>) -> (r: Json)
    ensures
        encodes_env(r, pairs_view(env@)),
{
    let mut fields: Vec<(String, Json)> = Vec::new();
    let mut i: usize = 0;
    while i < env.len()
        invariant
            i <= env@.len(),
            fields@.len() == i,
            forall|k: int|
                0 <= k < i ==> (#[trigger] fields@[k]).0@ == env@[k].0@ && is_text(fields@[k].1, env@[k].1@),
        decreases env@.len() - i,
    {
        fields.push((env[i].0.clone(), Json::Str(env[i].1.clone())));
        i = i + 1;
    }
    Json::Object(fields)
}

fn delay_to_json(d: Option<u64>) -> (r: Json)
    ensures
        encodes_delay(r, d),
{
    match d {
        None => Json::Null,
        Some(n) => Json::Unsigned(n),
    }
}

/// Writes the document of one process.
pub fn process_to_json(p: &ProcessSpec) -> (r: Json)
    ensures
        encodes_process(r, p@),
{
    let mut fields: Vec<(String, Json)> = Vec::new();
    fields.push(("path".to_owned(), Json::Str(p.path.clone())));
    fields.push(("dir".to_owned(), opt_text_to_json(&p.dir)));
    fields.push(("args".to_owned(), texts_to_json(&p.args)));
    fields.push(("env".to_owned(), env_to_json(&p.env)));
    fields.push(("delay".to_owned(), delay_to_json(p.delay)));
    Json::Object(fields)
}

/// Writes the document of an example, in the form that [`parse`] reads.
pub fn to_json(c: &ExampleConfig) -> (r: Json)
    ensures
        encodes_example(r, c@),
{
    let mut items: Vec<Json> = Vec::new();
    let mut i: usize = 0;
    while i < c.processes.len()
        invariant
            i <= c.processes@.len(),
            items@.len() == i,
            forall|k: int| 0 <= k < i ==> encodes_process(#[trigger] items@[k], c.processes@[k]@),
        decreases c.processes@.len() - i,
    {
        items.push(process_to_json(&c.processes[i]));
        i = i + 1;
    }
    let mut fields: Vec<(String, Json)> = Vec::new();
    fields.push(("name".to_owned(), Json::Str(c.name.clone())));
    fields.push(("description".to_owned(), Json::Str(c.description.clone())));
    fields.push(("apps".to_owned(), Json::Array(items)));
    Json::Object(fields)
}

proof fn lemma_texts_written(items: Seq<Json>, v: Seq<Seq<char>>)
    requires
        items.len() == v.len(),
        forall|i: int| 0 <= i < v.len() ==> is_text(#[trigger] items[i], v[i]),
    ensures
        texts_of(items) == Some(v),
    decreases items.len(),
{
    if items.len() > 0 {
        let n = items.len() - 1;
        assert forall|i: int| 0 <= i < n implies is_text(#[trigger] items.drop_last()[i], v.drop_last()[i]) by {
            assert(is_text(items[i], v[i]));
        }
        lemma_texts_written(items.drop_last(), v.drop_last());
        assert(is_text(items[n], v[n]));
        assert(v.drop_last().push(v[n]) =~= v);
    } else {
        assert(v =~= seq![]);
    }
}

proof fn lemma_env_written(fields: Seq<(String, Json)>, env: Seq<(Seq<char>, Seq<char>)>, app: usize)
    requires
        fields.len() == env.len(),
        forall|i: int|
            0 <= i < env.len() ==> (#[trigger] fields[i]).0@ == env[i].0 && is_text(fields[i].1, env[i].1),
        keys_unique(env),
    ensures
        env_of_members(fields, app) == Ok::<_, ParseError>(env),
    decreases fields.len(),
{
    if fields.len() > 0 {
        let n = fields.len() - 1;
        let prev = env.drop_last();
        assert forall|i: int| 0 <= i < n implies (#[trigger] fields.drop_last()[i]).0@ == prev[i].0
            && is_text(fields.drop_last()[i].1, prev[i].1) by {
            assert(fields[i].0@ == env[i].0);
        }
        assert(keys_unique(prev));
        lemma_env_written(fields.drop_last(), prev, app);
        assert(fields[n].0@ == env[n].0 && is_text(fields[n].1, env[n].1));
        assert(fields.last() == fields[n]);
        assert(env_of_members(fields.drop_last(), app) == Ok::<_, ParseError>(prev));
        let v = fields[n].1->Str_0;
        assert(env_of_members(fields, app) == Ok::<_, ParseError>(prev.push((fields[n].0@, v@))));
        assert(!env_keys(prev).contains(env[n].0)) by {
            if env_keys(prev).contains(env[n].0) {
                let k = choose|k: int| 0 <= k < prev.len() && env_keys(prev)[k] == env[n].0;
                assert(env[k].0 == env[n].0);
            }
        }
        assert(prev.push((env[n].0, env[n].1)) =~= env);
    } else {
        assert(env =~= seq![]);
    }
}

proof fn lemma_member_at(f: Seq<(String, Json)>, key: Seq<char>, i: int)
    requires
        0 <= i < f.len(),
        f[i].0@ == key,
        forall|j: int| i < j < f.len() ==> (#[trigger] f[j]).0@ != key,
    ensures
        member(f, key) == Some(f[i].1),
    decreases f.len(),
{
    if i < f.len() - 1 {
        assert(f[f.len() - 1].0@ != key);
        assert forall|j: int| i < j < f.drop_last().len() implies (#[trigger] f.drop_last()[j]).0@ != key by {
            assert(f[j].0@ != key);
        }
        lemma_member_at(f.drop_last(), key, i);
    }
}

proof fn lemma_process_written(j: Json, p: ProcessModel, app: usize)
    requires
        encodes_process(j, p),
        p.valid(),
    ensures
        process_of(j, app) == Ok::<_, ParseError>(p),
{
    reveal_strlit("path");
    reveal_strlit("dir");
    reveal_strlit("args");
    reveal_strlit("env");
    reveal_strlit("delay");
    let f = j->Object_0@;
    assert("path"@ != "args"@) by {
        assert("path"@[0] != "args"@[0]);
    }
    assert("dir"@ != "env"@) by {
        assert("dir"@[0] != "env"@[0]);
    }
    assert(f[0].0@ == "path"@ && f[1].0@ == "dir"@ && f[2].0@ == "args"@);
    assert(f[3].0@ == "env"@ && f[4].0@ == "delay"@);
    assert(forall|j: int| 0 < j < 5 ==> (#[trigger] f[j]).0@ != "path"@) by {
        assert(f[1].0@[0] != "path"@[0]);
        assert(f[3].0@[0] != "path"@[0]);
        assert(f[4].0@[0] != "path"@[0]);
    }
    assert(forall|j: int| 1 < j < 5 ==> (#[trigger] f[j]).0@ != "dir"@) by {
        assert(f[2].0@[0] != "dir"@[0]);
        assert(f[4].0@.len() != "dir"@.len());
    }
    lemma_member_at(f, "path"@, 0);
    lemma_member_at(f, "dir"@, 1);
    lemma_member_at(f, "args"@, 2);
    assert(f[4].0@[0] != "env"@[0]);
    lemma_member_at(f, "env"@, 3);
    lemma_member_at(f, "delay"@, 4);
    let items = f[2].1->Array_0@;
    lemma_texts_written(items, p.args);
    let members = f[3].1->Object_0@;
    lemma_env_written(members, p.env, app);
}

proof fn lemma_processes_written(items: Seq<Json>, ps: Seq<ProcessModel>)
    requires
        items.len() == ps.len(),
        forall|i: int| 0 <= i < items.len() ==> encodes_process(#[trigger] items[i], ps[i]),
        forall|i: int| 0 <= i < ps.len() ==> #[trigger] ps[i].valid(),
    ensures
        processes_of(items) == Ok::<_, ParseError>(ps),
    decreases items.len(),
{
    if items.len() > 0 {
        let n = items.len() - 1;
        assert forall|i: int| 0 <= i < n implies encodes_process(#[trigger] items.drop_last()[i], ps.drop_last()[i]) by {
            assert(encodes_process(items[i], ps[i]));
        }
        assert forall|i: int| 0 <= i < n implies #[trigger] ps.drop_last()[i].valid() by {
            assert(ps[i].valid());
        }
        lemma_processes_written(items.drop_last(), ps.drop_last());
        assert(encodes_process(items[n], ps[n]));
        assert(ps[n].valid());
        lemma_process_written(items[n], ps[n], items.len() as usize);
        assert(items.last() == items[n]);
        assert(ps.drop_last().push(ps[n]) =~= ps);
    } else {
        assert(ps =~= seq![]);
    }
}

/// Reading back a written example gives the example: for every valid
/// example `m` and the document `doc` that [`to_json`] writes for it,
/// `parse` returns `m`.
pub proof fn lemma_parse_of_written(doc: Json, m: ExampleModel)
    requires
        m.valid(),
        encodes_example(doc, m),
    ensures
        example_of(doc) == Ok::<_, ParseError>(m),
{
    reveal_strlit("name");
    reveal_strlit("description");
    reveal_strlit("apps");
    let f = doc->Object_0@;
    assert("name"@ != "apps"@) by {
        assert("name"@[0] != "apps"@[0]);
    }
    assert(f[1].0@[0] != "name"@[0]);
    assert(f[2].0@[0] != "name"@[0]);
    assert(f[2].0@[0] != "description"@[0]);
    lemma_member_at(f, "name"@, 0);
    lemma_member_at(f, "description"@, 1);
    lemma_member_at(f, "apps"@, 2);
    let items = f[2].1->Array_0@;
    assert forall|i: int| 0 <= i < m.processes.len() implies #[trigger] m.processes[i].valid() by {}
    lemma_processes_written(items, m.processes);
}

} // verus!
