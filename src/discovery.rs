//! The walk that builds the catalog of examples under a root directory.
//!
//! The walk is a state machine: the caller lists directories and loads
//! files when asked, and hands the results back. Entries are visited
//! depth first, in the order in which each listing gives them; symbolic
//! links are never followed nor loaded.

use vstd::prelude::*;
use crate::json::Json;
use crate::config::{ExampleConfig, ExampleModel, ParseError, parse, example_of};

verus! {

/// The suffix that marks an example configuration file.
pub const CONFIG_SUFFIX: &'static str = ".score.json";

/// What a directory entry is, as seen without following links.
#[derive(Clone, Copy, Debug, PartialEq, Eq, Structural)]
pub enum EntryKind {
    Symlink,
    Dir,
    File,
}

/// One entry of a directory listing.
pub struct DirEntry<P> {
    pub path: P,
    /// The entry's file name, `None` where it is not valid Unicode.
    pub name: Option<String>,
    pub kind: EntryKind,
}

/// What the walk asks of its caller next.
pub enum Step<P> {
    /// List this directory and hand the entries to `on_listed`.
    ListDir(P),
    /// Read and parse this file and hand the document to `on_loaded`.
    LoadFile(P),
    /// Nothing is left to visit.
    Finished,
}

/// Why the catalog could not be built.
pub enum DiscoveryError<P> {
    /// A directory or a file could not be read.
    Unreadable { path: P, reason: String },
    /// A configuration file is not a well-formed document.
    Malformed { path: P, reason: String },
    /// A configuration file is a document that describes no example.
    Invalid { path: P, error: ParseError },
}

/// `s` ends with `suffix`.
pub open spec fn ends_with(s: Seq<char>, suffix: Seq<char>) -> bool {
    s.len() >= suffix.len() && s.subrange(s.len() - suffix.len(), s.len() as int) == suffix
}

/// A file name that marks an example configuration.
pub open spec fn is_config_name(name: Seq<char>) -> bool {
    ends_with(name, CONFIG_SUFFIX@)
}

/// Tells whether a file name marks an example configuration.
pub fn is_score_file(name: &str) -> (r: bool)
    ensures
        r == is_config_name(name@),
{
    let suffix = CONFIG_SUFFIX;
    let n = name.unicode_len();
    let m = suffix.unicode_len();
    if n < m {
        return false;
    }
    let start = n - m;
    let mut i: usize = 0;
    while i < m
        invariant
            n == name@.len(),
            m == suffix@.len(),
            suffix@ == CONFIG_SUFFIX@,
            start == n - m,
            i <= m,
            forall|k: int| 0 <= k < i ==> name@[start + k] == suffix@[k],
        decreases m - i,
    {
        if name.get_char(start + i) != suffix.get_char(i) {
            assert(name@.subrange(start as int, n as int)[i as int] != suffix@[i as int]);
            return false;
        }
        i = i + 1;
    }
    assert(name@.subrange(start as int, n as int) =~= suffix@);
    true
}

/// An entry that the walk loads: a regular file with a configuration name.
pub open spec fn loadable<P>(e: DirEntry<P>) -> bool {
    &&& e.kind == EntryKind::File
    &&& e.name matches Some(n)
    &&& is_config_name(n@)
}

/// One step of the walk over the entries still to visit: the entries left
/// afterwards and what is asked of the caller.
pub open spec fn step_of<P>(pending: Seq<DirEntry<P>>) -> (Seq<DirEntry<P>>, Step<P>)
    decreases pending.len(),
{
    if pending.len() == 0 {
        (pending, Step::Finished)
    } else {
        let e = pending[0];
        let rest = pending.drop_first();
        match e.kind {
            EntryKind::Dir => (rest, Step::ListDir(e.path)),
            EntryKind::File => if loadable(e) {
                (rest, Step::LoadFile(e.path))
            } else {
                step_of(rest)
            },
            EntryKind::Symlink => step_of(rest),
        }
    }
}

pub open spec fn catalog_view(v: Seq<ExampleConfig>) -> Seq<ExampleModel> {
    v.map_values(|c: ExampleConfig| c@)
}

/// The state of a catalog walk.
pub struct Discovery<P> {
    pending: Vec<DirEntry<P>>,
    catalog: Vec<ExampleConfig>,
}

impl<P> Discovery<P> {
    /// The entries still to visit, in visiting order.
    pub closed spec fn pending(&self) -> Seq<DirEntry<P>> {
        self.pending@
    }

    /// The examples found so far, in discovery order.
    pub closed spec fn found(&self) -> Seq<ExampleModel> {
        catalog_view(self.catalog@)
    }

    /// A walk that starts at the directory `root`.
    pub fn new(root: P) -> (r: Self)
        ensures
            r.pending() == seq![DirEntry { path: root, name: None, kind: EntryKind::Dir }],
            r.found() == Seq::<ExampleModel>::empty(),
    {
        let mut pending: Vec<DirEntry<P>> = Vec::new();
        pending.push(DirEntry { path: root, name: None, kind: EntryKind::Dir });
        let r = Discovery { pending, catalog: Vec::new() };
        assert(r.found() =~= Seq::<ExampleModel>::empty());
        r
    }

    /// Visits entries until one needs the caller: a directory to list or a
    /// configuration file to load. Symbolic links and other files are
    /// passed over.
    pub fn next_step(&mut self) -> (r: Step<P>)
        ensures
            (final(self).pending(), r) == step_of(old(self).pending()),
            final(self).found() == old(self).found(),
    {
        while self.pending.len() > 0
            invariant
                step_of(self.pending@) == step_of(old(self).pending@),
                self.catalog@ == old(self).catalog@,
            decreases self.pending@.len(),
        {
            let ghost before = self.pending@;
            let e = self.pending.remove(0);
            assert(self.pending@ =~= before.drop_first());
            assert(e == before[0]);
            match e.kind {
                EntryKind::Dir => {
                    return Step::ListDir(e.path);
                },
                EntryKind::File => {
                    let wanted = match &e.name {
                        Some(n) => is_score_file(n.as_str()),
                        None => false,
                    };
                    if wanted {
                        return Step::LoadFile(e.path);
                    }
                },
                EntryKind::Symlink => {},
            }
        }
        Step::Finished
    }

    /// Takes the listing of the directory that the last step asked for:
    /// its entries are visited next, in the order given, before the
    /// entries that were already waiting.
    pub fn on_listed(&mut self, entries: Vec<DirEntry<P>>)
        ensures
            final(self).pending() == entries@ + old(self).pending(),
            final(self).found() == old(self).found(),
    {
        let mut entries = entries;
        entries.append(&mut self.pending);
        self.pending = entries;
    }

    /// Takes the document read from the file `path` that the last step
    /// asked for. The example it describes joins the catalog; a document
    /// that describes none is an error and leaves the walk as it was.
    pub fn on_loaded(&mut self, path: P, doc: &Json) -> (r: Result<(), DiscoveryError<P>>)
        ensures
            final(self).pending() == old(self).pending(),
            match r {
                Ok(()) => exists|m: ExampleModel|
                    example_of(*doc) == Ok::<_, ParseError>(m) && final(self).found() == old(self).found().push(m),
                Err(DiscoveryError::Invalid { path: p, error }) => {
                    &&& p == path
                    &&& example_of(*doc) == Err::<ExampleModel, _>(error)
                    &&& final(self).found() == old(self).found()
                },
                Err(_) => false,
            },
    {
        match parse(doc) {
            Ok(c) => {
                let ghost m = c@;
                let ghost before = self.catalog@;
                self.catalog.push(c);
                assert(catalog_view(self.catalog@) =~= catalog_view(before).push(m));
                assert(example_of(*doc) == Ok::<_, ParseError>(m) && self.found() == old(self).found().push(m));
                Ok(())
            },
            Err(error) => Err(DiscoveryError::Invalid { path, error }),
        }
    }

    /// The catalog: every example found, in discovery order.
    pub fn into_catalog(self) -> (r: Vec<ExampleConfig>)
        ensures
            catalog_view(r@) == self.found(),
    {
        self.catalog
    }
}


/// Whether an entry is passed over by the walk without asking the caller.
pub open spec fn passed_over<P>(e: DirEntry<P>) -> bool {
    e.kind == EntryKind::Symlink || (e.kind == EntryKind::File && !loadable(e))
}

/// A step of the walk takes the first entry that is not passed over, and
/// nothing else: what it asks for comes from that entry, which is a
/// directory or a loadable regular file and never a symbolic link. Where
/// every entry is passed over, the walk is finished.
pub proof fn lemma_step_takes_first_candidate<P>(pending: Seq<DirEntry<P>>)
    ensures
        match step_of(pending).1 {
            Step::Finished => {
                &&& step_of(pending).0.len() == 0
                &&& forall|j: int| 0 <= j < pending.len() ==> passed_over(#[trigger] pending[j])
            },
            Step::ListDir(x) => exists|k: int| {
                &&& 0 <= k < pending.len()
                &&& pending[k].kind == EntryKind::Dir
                &&& pending[k].path == x
                &&& step_of(pending).0 == pending.subrange(k + 1, pending.len() as int)
                &&& forall|j: int| 0 <= j < k ==> passed_over(#[trigger] pending[j])
            },
            Step::LoadFile(x) => exists|k: int| {
                &&& 0 <= k < pending.len()
                &&& loadable(pending[k])
                &&& pending[k].path == x
                &&& step_of(pending).0 == pending.subrange(k + 1, pending.len() as int)
                &&& forall|j: int| 0 <= j < k ==> passed_over(#[trigger] pending[j])
            },
        },
    decreases pending.len(),
{
    if pending.len() > 0 {
        let rest = pending.drop_first();
        lemma_step_takes_first_candidate(rest);
        let e = pending[0];
        if passed_over(e) {
            match step_of(rest).1 {
                Step::Finished => {
                    assert forall|j: int| 0 <= j < pending.len() implies passed_over(#[trigger] pending[j]) by {
                        if j > 0 {
                            assert(pending[j] == rest[j - 1]);
                        }
                    }
                },
                Step::ListDir(x) => {
                    let k = choose|k: int| {
                        &&& 0 <= k < rest.len()
                        &&& rest[k].kind == EntryKind::Dir
                        &&& rest[k].path == x
                        &&& step_of(rest).0 == rest.subrange(k + 1, rest.len() as int)
                        &&& forall|j: int| 0 <= j < k ==> passed_over(#[trigger] rest[j])
                    };
                    assert(rest.subrange(k + 1, rest.len() as int) =~= pending.subrange(k + 2, pending.len() as int));
                    assert forall|j: int| 0 <= j < k + 1 implies passed_over(#[trigger] pending[j]) by {
                        if j > 0 {
                            assert(pending[j] == rest[j - 1]);
                        }
                    }
                    assert(pending[k + 1] == rest[k]);
                },
                Step::LoadFile(x) => {
                    let k = choose|k: int| {
                        &&& 0 <= k < rest.len()
                        &&& loadable(rest[k])
                        &&& rest[k].path == x
                        &&& step_of(rest).0 == rest.subrange(k + 1, rest.len() as int)
                        &&& forall|j: int| 0 <= j < k ==> passed_over(#[trigger] rest[j])
                    };
                    assert(rest.subrange(k + 1, rest.len() as int) =~= pending.subrange(k + 2, pending.len() as int));
                    assert forall|j: int| 0 <= j < k + 1 implies passed_over(#[trigger] pending[j]) by {
                        if j > 0 {
                            assert(pending[j] == rest[j - 1]);
                        }
                    }
                    assert(pending[k + 1] == rest[k]);
                },
            }
        } else {
            assert(rest =~= pending.subrange(1, pending.len() as int));
        }
    }
}

/// The paths of the loadable entries of a listing, in order.
pub open spec fn config_paths<P>(entries: Seq<DirEntry<P>>) -> Seq<P>
    decreases entries.len(),
{
    if entries.len() == 0 {
        seq![]
    } else if loadable(entries[0]) {
        seq![entries[0].path] + config_paths(entries.drop_first())
    } else {
        config_paths(entries.drop_first())
    }
}

/// No entry is a directory.
pub open spec fn flat<P>(entries: Seq<DirEntry<P>>) -> bool {
    forall|j: int| 0 <= j < entries.len() ==> (#[trigger] entries[j]).kind != EntryKind::Dir
}

/// The files that the walk asks to load over at most `fuel` steps from
/// `pending`, where every file handed back loads; a directory stops it.
pub open spec fn walk_loads<P>(pending: Seq<DirEntry<P>>, fuel: nat) -> Seq<P>
    decreases fuel,
{
    if fuel == 0 {
        seq![]
    } else {
        match step_of(pending) {
            (rest, Step::LoadFile(x)) => seq![x] + walk_loads(rest, (fuel - 1) as nat),
            _ => seq![],
        }
    }
}

proof fn lemma_flat_step<P>(entries: Seq<DirEntry<P>>)
    requires
        flat(entries),
    ensures
        flat(step_of(entries).0),
        step_of(entries).0.len() < entries.len() || step_of(entries).1 is Finished,
        config_paths(entries).len() == 0 ==> step_of(entries).1 is Finished,
        config_paths(entries).len() > 0 ==> {
            &&& step_of(entries).1 == Step::LoadFile(config_paths(entries)[0])
            &&& config_paths(step_of(entries).0) == config_paths(entries).drop_first()
        },
    decreases entries.len(),
{
    if entries.len() > 0 {
        let rest = entries.drop_first();
        assert(flat(rest)) by {
            assert forall|j: int| 0 <= j < rest.len() implies (#[trigger] rest[j]).kind != EntryKind::Dir by {
                assert(rest[j] == entries[j + 1]);
            }
        }
        assert(entries[0].kind != EntryKind::Dir);
        lemma_flat_step(rest);
        if loadable(entries[0]) {
            assert((seq![entries[0].path] + config_paths(rest)).drop_first() =~= config_paths(rest));
        }
    }
}

/// The walk over a listing without directories loads exactly its loadable
/// entries, each once, in listing order: N configuration files give N
/// examples, in the same order on every walk over the same listing.
pub proof fn lemma_flat_listing_loads_each_file<P>(entries: Seq<DirEntry<P>>)
    requires
        flat(entries),
    ensures
        walk_loads(entries, entries.len()) == config_paths(entries),
{
    lemma_flat_walk(entries, entries.len());
}

proof fn lemma_flat_walk<P>(entries: Seq<DirEntry<P>>, fuel: nat)
    requires
        flat(entries),
        fuel >= entries.len(),
    ensures
        walk_loads(entries, fuel) == config_paths(entries),
    decreases fuel,
{
    lemma_flat_step(entries);
    if fuel == 0 {
        assert(config_paths(entries) =~= seq![]);
    } else if config_paths(entries).len() == 0 {
        assert(config_paths(entries) =~= seq![]);
    } else {
        let rest = step_of(entries).0;
        lemma_flat_walk(rest, (fuel - 1) as nat);
        assert(seq![config_paths(entries)[0]] + config_paths(entries).drop_first() =~= config_paths(entries));
    }
}

} // verus!
