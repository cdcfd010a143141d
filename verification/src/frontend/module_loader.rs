//! Bookkeeping of imported modules: where an import may be found, which
//! files are loaded (by canonical path), and which imports are under way,
//! so that a circular import is caught.
//!
//! Paths are strings. Looking at the file system (does a path exist,
//! what is its canonical form, what does the file hold) is left to the
//! caller, who hands the answers in.

use vstd::prelude::*;
use crate::common::assoc::{map_of, keys_distinct, lemma_map_of_dom, lemma_keys_distinct_push};

verus! {

broadcast use vstd::seq_lib::group_seq_properties;

/// Why a module could not be loaded.
#[derive(Debug)]
pub enum ModuleError {
    /// No candidate file for the import exists.
    NotFound { module: String },
    /// Loading the file would close a cycle of imports; the cycle lists
    /// the imports under way and then the file itself.
    CircularImport { cycle: Vec<String> },
}

/// What loading a file amounts to, given the loader's state.
#[derive(Debug)]
pub enum LoadStep {
    /// The file is being imported already: the import cycle.
    Cycle(Vec<String>),
    /// The file was loaded before: its source.
    Cached(String),
    /// The file must be read, then recorded with `record_loaded`.
    NeedsRead,
}

pub struct ModuleLoader {
    loaded_files: Vec<(String, String)>,
    import_stack: Vec<String>,
    search_paths: Vec<String>,
}

/// The views of a list of strings.
pub open spec fn views(v: Seq<String>) -> Seq<Seq<char>> {
    Seq::new(v.len(), |i: int| v[i]@)
}

/// Path and source of each recorded file.
pub open spec fn entries(v: Seq<(String, String)>) -> Seq<(Seq<char>, Seq<char>)> {
    Seq::new(v.len(), |i: int| (v[i].0@, v[i].1@))
}

proof fn lemma_entries_push(v: Seq<(String, String)>, e: (String, String))
    ensures
        entries(v.push(e)) == entries(v).push((e.0@, e.1@)),
{
    assert(entries(v.push(e)) =~= entries(v).push((e.0@, e.1@)));
}

/// The items joined by `sep`.
pub open spec fn joined(items: Seq<Seq<char>>, sep: Seq<char>) -> Seq<char>
    decreases items.len(),
{
    if items.len() == 0 {
        Seq::empty()
    } else if items.len() == 1 {
        items[0]
    } else {
        joined(items.drop_last(), sep) + sep + items.last()
    }
}

/// The sentence that reports a failed load.
pub open spec fn module_error_text(e: ModuleError) -> Seq<char> {
    match e {
        ModuleError::NotFound { module } => "Module '"@ + module@ + "' not found"@,
        ModuleError::CircularImport { cycle } => "Circular import detected: "@ + joined(views(cycle@), " -> "@),
    }
}

impl ModuleError {
    /// The error as a sentence.
    pub fn message(&self) -> (r: String)
        ensures
            r@ == module_error_text(*self),
    {
        match self {
            ModuleError::NotFound { module } => {
                let mut s = "Module '".to_string();
                s.append(module.as_str());
                s.append("' not found");
                s
            },
            ModuleError::CircularImport { cycle } => {
                let mut s = "Circular import detected: ".to_string();
                let ghost head = s@;
                let mut i: usize = 0;
                assert(views(cycle@).take(0) =~= Seq::<Seq<char>>::empty());
                while i < cycle.len()
                    invariant
                        0 <= i <= cycle@.len(),
                        head == "Circular import detected: "@,
                        s@ == head + joined(views(cycle@).take(i as int), " -> "@),
                    decreases cycle@.len() - i,
                {
                    proof {
                        let t = views(cycle@).take(i + 1);
                        assert(t.drop_last() =~= views(cycle@).take(i as int));
                        assert(t.last() == cycle@[i as int]@);
                        if i == 0 {
                            assert(t =~= seq![cycle@[0]@]);
                        }
                    }
                    if i > 0 {
                        s.append(" -> ");
                    }
                    s.append(cycle[i].as_str());
                    i = i + 1;
                }
                assert(views(cycle@).take(cycle@.len() as int) =~= views(cycle@));
                s
            },
        }
    }
}

/// `path` names a module file: it ends in `.gol`.
pub open spec fn has_gol_suffix(path: Seq<char>) -> bool {
    path.len() >= 4 && path.subrange(path.len() - 4, path.len() as int) == seq!['.', 'g', 'o', 'l']
}

/// The file an import names: the path itself if it ends in `.gol`, else
/// the path with `.gol` appended.
pub open spec fn module_file(import_path: Seq<char>) -> Seq<char> {
    if has_gol_suffix(import_path) {
        import_path
    } else {
        import_path + seq!['.', 'g', 'o', 'l']
    }
}

impl ModuleLoader {
    /// Loaded files: canonical path and source, one entry per path.
    pub closed spec fn loaded(&self) -> Seq<(Seq<char>, Seq<char>)> {
        entries(self.loaded_files@)
    }

    /// The imports under way, outermost first.
    pub closed spec fn stack(&self) -> Seq<Seq<char>> {
        views(self.import_stack@)
    }

    /// The directories searched after the importing file's own.
    pub closed spec fn search(&self) -> Seq<Seq<char>> {
        views(self.search_paths@)
    }

    /// The loaded sources, by canonical path.
    pub open spec fn sources(&self) -> Map<Seq<char>, Seq<char>> {
        map_of(self.loaded())
    }

    pub open spec fn wf(&self) -> bool {
        keys_distinct(self.loaded())
    }

    /// Each file is recorded once.
    #[verifier::type_invariant]
    spec fn loaded_once(&self) -> bool {
        self.wf()
    }

    /// A loader with nothing loaded, no import under way, and the
    /// current directory to search.
    pub fn new() -> (r: ModuleLoader)
        ensures
            r.wf(),
            r.loaded().len() == 0,
            r.stack().len() == 0,
            r.search() == seq![seq!['.']],
    {
        proof { reveal_strlit("."); }
        let r = ModuleLoader {
            loaded_files: Vec::new(),
            import_stack: Vec::new(),
            search_paths: vec![".".to_string()],
        };
        assert(r.search_paths@[0]@ =~= seq!['.']);
        assert(r.search() =~= seq![seq!['.']]);
        r
    }

    /// Adds a directory to search, after the others.
    pub fn add_search_path(&mut self, path: &str)
        ensures
            final(self).search() == old(self).search().push(path@),
            final(self).loaded() == old(self).loaded(),
            final(self).stack() == old(self).stack(),
    {
        proof { use_type_invariant(&*self); }
        let mut v: Vec<String> = Vec::new();
        std::mem::swap(&mut v, &mut self.search_paths);
        v.push(path.to_string());
        self.search_paths = v;
        assert(self.search() =~= old(self).search().push(path@));
    }

    /// The directories where an import is looked for, in the order they
    /// are tried: the importing file's directory (the parent of its path,
    /// or `.` where the path has none), then each search directory.
    pub fn candidate_bases(&self, current_file: &str) -> (r: Vec<String>)
        ensures
            r@.len() == self.search().len() + 1,
            views(r@).drop_first() == self.search(),
            r@[0]@ == "."@ || (r@[0]@.len() <= current_file@.len() && current_file@.take(r@[0]@.len() as int) == r@[0]@),
            current_file@.len() == 0 ==> r@[0]@ == "."@,
    {
        proof { use_type_invariant(&*self); }
        let dir = match path_parent(current_file) {
            Some(d) => d,
            None => ".".to_string(),
        };
        let mut out: Vec<String> = Vec::new();
        out.push(dir);
        let mut i: usize = 0;
        while i < self.search_paths.len()
            invariant
                0 <= i <= self.search_paths@.len(),
                out@.len() == i + 1,
                out@[0]@ == "."@ || (out@[0]@.len() <= current_file@.len() && current_file@.take(out@[0]@.len() as int) == out@[0]@),
                current_file@.len() == 0 ==> out@[0]@ == "."@,
                forall|j: int| 0 <= j < i ==> (#[trigger] out@[j + 1])@ == self.search_paths@[j]@,
            decreases self.search_paths@.len() - i,
        {
            out.push(self.search_paths[i].clone());
            i = i + 1;
        }
        assert(views(out@).drop_first() =~= self.search());
        out
    }

    /// Where an import may be found, in the order the places are tried,
    /// as directory and file name: each directory of `candidate_bases`, in
    /// their order, with the module's file name (see `module_file`).
    pub fn import_candidate_parts(&self, import_path: &str, current_file: &str) -> (r: Vec<(String, String)>)
        ensures
            r@.len() == self.search().len() + 1,
            forall|k: int| 0 <= k < r@.len() ==> (#[trigger] r@[k]).1@ == module_file(import_path@),
            forall|k: int| 1 <= k < r@.len() ==> (#[trigger] r@[k]).0@ == self.search()[k - 1],
            r@[0].0@ == "."@ || (r@[0].0@.len() <= current_file@.len()
                && current_file@.take(r@[0].0@.len() as int) == r@[0].0@),
            current_file@.len() == 0 ==> r@[0].0@ == "."@,
    {
        let file = module_file_name(import_path);
        let bases = self.candidate_bases(current_file);
        let mut out: Vec<(String, String)> = Vec::new();
        let mut i: usize = 0;
        while i < bases.len()
            invariant
                0 <= i <= bases@.len(),
                bases@.len() == self.search().len() + 1,
                views(bases@).drop_first() == self.search(),
                file@ == module_file(import_path@),
                out@.len() == i,
                forall|k: int| 0 <= k < i ==> (#[trigger] out@[k]).0@ == bases@[k]@ && out@[k].1@ == file@,
            decreases bases@.len() - i,
        {
            out.push((bases[i].clone(), file.clone()));
            i = i + 1;
        }
        proof {
            assert forall|k: int| 1 <= k < out@.len() implies (#[trigger] out@[k]).0@ == self.search()[k - 1] by {
                assert(views(bases@).drop_first()[k - 1] == views(bases@)[k]);
            }
        }
        out
    }

    /// The paths where an import may be found, in the order they are
    /// tried: each place of `import_candidate_parts`, its file name joined
    /// to its directory.
    pub fn import_candidates(&self, import_path: &str, current_file: &str) -> (r: Vec<String>)
        ensures
            r@.len() == self.search().len() + 1,
    {
        let parts = self.import_candidate_parts(import_path, current_file);
        let mut out: Vec<String> = Vec::new();
        let mut i: usize = 0;
        while i < parts.len()
            invariant
                0 <= i <= parts@.len(),
                out@.len() == i,
            decreases parts@.len() - i,
        {
            out.push(join_path(parts[i].0.as_str(), parts[i].1.as_str()));
            i = i + 1;
        }
        out
    }

    /// Resolves an import: the first candidate path (see
    /// `import_candidates`) among `existing`, the paths that exist; the
    /// module is not found exactly when no candidate exists.
    pub fn resolve_import(&self, import_path: &str, current_file: &str, existing: &Vec<String>) -> (r: Result<String, ModuleError>)
        ensures
            match r {
                Ok(p) => exists|cands: Seq<Seq<char>>| cands.len() == self.search().len() + 1
                    && #[trigger] first_in(cands, views(existing@), p@),
                Err(e) => e matches ModuleError::NotFound { module } && module@ == import_path@
                    && exists|cands: Seq<Seq<char>>| cands.len() == self.search().len() + 1
                        && #[trigger] none_in(cands, views(existing@)),
            },
    {
        let candidates = self.import_candidates(import_path, current_file);
        let r = first_existing(import_path, &candidates, existing);
        proof {
            let cands = views(candidates@);
            match &r {
                Ok(p) => {
                    let i = choose|i: int| 0 <= i < candidates@.len() && candidates@[i]@ == p@
                        && views(existing@).contains(p@)
                        && forall|j: int| 0 <= j < i ==> !views(existing@).contains(#[trigger] candidates@[j]@);
                    assert(cands[i] == p@);
                    assert forall|j: int| 0 <= j < i implies !views(existing@).contains(#[trigger] cands[j]) by {
                        assert(cands[j] == candidates@[j]@);
                    }
                    assert(first_in(cands, views(existing@), p@));
                },
                Err(_) => {
                    assert forall|j: int| 0 <= j < cands.len() implies !views(existing@).contains(#[trigger] cands[j]) by {
                        assert(cands[j] == candidates@[j]@);
                    }
                    assert(none_in(cands, views(existing@)));
                },
            }
        }
        r
    }

    /// Marks the start of importing the file at canonical path `path`.
    pub fn begin_import(&mut self, path: &str) -> (r: Result<(), ModuleError>)
        ensures
            r is Ok,
            final(self).stack() == old(self).stack().push(path@),
            final(self).loaded() == old(self).loaded(),
            final(self).search() == old(self).search(),
    {
        proof { use_type_invariant(&*self); }
        let mut v: Vec<String> = Vec::new();
        std::mem::swap(&mut v, &mut self.import_stack);
        v.push(path.to_string());
        self.import_stack = v;
        assert(self.stack() =~= old(self).stack().push(path@));
        Ok(())
    }

    /// Marks the end of the innermost import under way, if any.
    pub fn end_import(&mut self)
        ensures
            final(self).stack() == if old(self).stack().len() == 0 { old(self).stack() } else { old(self).stack().drop_last() },
            final(self).loaded() == old(self).loaded(),
            final(self).search() == old(self).search(),
    {
        proof { use_type_invariant(&*self); }
        let mut v: Vec<String> = Vec::new();
        std::mem::swap(&mut v, &mut self.import_stack);
        let _ = v.pop();
        self.import_stack = v;
        assert(self.stack() =~= if old(self).stack().len() == 0 { old(self).stack() } else { old(self).stack().drop_last() });
    }

    /// Whether the file at canonical path `path` is loaded.
    pub fn is_loaded(&self, path: &str) -> (r: bool)
        ensures
            r == self.sources().contains_key(path@),
    {
        proof { lemma_map_of_dom(self.loaded(), path@); }
        let p = path.to_string();
        let mut i: usize = 0;
        while i < self.loaded_files.len()
            invariant
                0 <= i <= self.loaded_files@.len(),
                p@ == path@,
                forall|j: int| 0 <= j < i ==> self.loaded()[j].0 != path@,
            decreases self.loaded_files@.len() - i,
        {
            if self.loaded_files[i].0 == p {
                assert(self.loaded()[i as int].0 == path@);
                proof { lemma_map_of_dom(self.loaded(), path@); }
                return true;
            }
            i = i + 1;
        }
        false
    }

    /// The canonical paths of the loaded files, in loading order.
    pub fn get_loaded_modules(&self) -> (r: Vec<String>)
        ensures
            views(r@) == Seq::new(self.loaded().len(), |i: int| self.loaded()[i].0),
    {
        let mut out: Vec<String> = Vec::new();
        let mut i: usize = 0;
        while i < self.loaded_files.len()
            invariant
                0 <= i <= self.loaded_files@.len(),
                out@.len() == i,
                forall|j: int| 0 <= j < i ==> (#[trigger] out@[j])@ == self.loaded()[j].0,
            decreases self.loaded_files@.len() - i,
        {
            let c = self.loaded_files[i].0.clone();
            assert(c@ == self.loaded()[i as int].0);
            out.push(c);
            i = i + 1;
        }
        assert(views(out@) =~= Seq::new(self.loaded().len(), |j: int| self.loaded()[j].0));
        out
    }

    /// Forgets every loaded file and every import under way; the search
    /// directories stay.
    pub fn clear(&mut self)
        ensures
            final(self).wf(),
            final(self).loaded().len() == 0,
            final(self).stack().len() == 0,
            final(self).search() == old(self).search(),
    {
        self.loaded_files = Vec::new();
        self.import_stack = Vec::new();
        assert(self.loaded() =~= Seq::<(Seq<char>, Seq<char>)>::empty());
    }

    /// What loading the file at canonical path `path` amounts to: a
    /// circular import if it is being imported already, else its source
    /// if it is loaded, else a read.
    pub fn check_load(&self, path: &str) -> (r: LoadStep)
        ensures
            match r {
                LoadStep::Cycle(c) => self.stack().contains(path@) && views(c@) == self.stack().push(path@),
                LoadStep::Cached(s) => !self.stack().contains(path@) && self.sources().contains_key(path@)
                    && self.sources()[path@] == s@,
                LoadStep::NeedsRead => !self.stack().contains(path@) && !self.sources().contains_key(path@),
            },
    {
        proof { use_type_invariant(self); }
        let p = path.to_string();
        let mut i: usize = 0;
        while i < self.import_stack.len()
            invariant
                0 <= i <= self.import_stack@.len(),
                p@ == path@,
                forall|j: int| 0 <= j < i ==> self.stack()[j] != path@,
            decreases self.import_stack@.len() - i,
        {
            if self.import_stack[i] == p {
                assert(self.stack()[i as int] == path@);
                let mut cycle: Vec<String> = Vec::new();
                let mut k: usize = 0;
                while k < self.import_stack.len()
                    invariant
                        0 <= k <= self.import_stack@.len(),
                        cycle@.len() == k,
                        forall|j: int| 0 <= j < k ==> (#[trigger] cycle@[j])@ == self.stack()[j],
                    decreases self.import_stack@.len() - k,
                {
                    let c = self.import_stack[k].clone();
                    assert(c@ == self.stack()[k as int]);
                    cycle.push(c);
                    k = k + 1;
                }
                cycle.push(p);
                assert(views(cycle@) =~= self.stack().push(path@));
                return LoadStep::Cycle(cycle);
            }
            i = i + 1;
        }
        assert(!self.stack().contains(path@));
        let mut i: usize = 0;
        while i < self.loaded_files.len()
            invariant
                0 <= i <= self.loaded_files@.len(),
                p@ == path@,
                self.wf(),
                !self.stack().contains(path@),
                forall|j: int| 0 <= j < i ==> self.loaded()[j].0 != path@,
            decreases self.loaded_files@.len() - i,
        {
            if self.loaded_files[i].0 == p {
                proof {
                    lemma_source_at(self.loaded(), i as int);
                    assert(!self.stack().contains(path@));
                }
                return LoadStep::Cached(self.loaded_files[i].1.clone());
            }
            i = i + 1;
        }
        proof { lemma_map_of_dom(self.loaded(), path@); }
        LoadStep::NeedsRead
    }

    /// Records the source of a file just read.
    pub fn record_loaded(&mut self, path: &str, source: String)
        requires
            !old(self).sources().contains_key(path@),
        ensures
            final(self).wf(),
            final(self).sources() == old(self).sources().insert(path@, source@),
            final(self).loaded() == old(self).loaded().push((path@, source@)),
            final(self).stack() == old(self).stack(),
            final(self).search() == old(self).search(),
    {
        proof {
            use_type_invariant(&*self);
            lemma_map_of_dom(old(self).loaded(), path@);
            lemma_keys_distinct_push(old(self).loaded(), (path@, source@));
        }
        let ghost sv = source@;
        let entry = (path.to_string(), source);
        let mut v: Vec<(String, String)> = Vec::new();
        std::mem::swap(&mut v, &mut self.loaded_files);
        proof {
            lemma_entries_push(v@, entry);
        }
        v.push(entry);
        self.loaded_files = v;
        assert(self.loaded() =~= old(self).loaded().push((path@, sv)));
    }
}

/// With distinct keys, the source of the entry at `i` is the map's.
proof fn lemma_source_at(s: Seq<(Seq<char>, Seq<char>)>, i: int)
    requires
        keys_distinct(s) || forall|j: int| 0 <= j < i ==> s[j].0 != s[i].0,
        0 <= i < s.len(),
    ensures
        map_of(s).contains_key(s[i].0),
        map_of(s)[s[i].0] == s[i].1 || !keys_distinct(s),
{
    lemma_map_of_dom(s, s[i].0);
    if keys_distinct(s) {
        crate::common::assoc::lemma_map_of_index(s, i);
    }
}

/// `p` is the first of `cands` that is among `existing`.
pub open spec fn first_in(cands: Seq<Seq<char>>, existing: Seq<Seq<char>>, p: Seq<char>) -> bool {
    exists|i: int| 0 <= i < cands.len() && cands[i] == p && existing.contains(p)
        && forall|j: int| 0 <= j < i ==> !existing.contains(#[trigger] cands[j])
}

/// None of `cands` is among `existing`.
pub open spec fn none_in(cands: Seq<Seq<char>>, existing: Seq<Seq<char>>) -> bool {
    forall|j: int| 0 <= j < cands.len() ==> !existing.contains(#[trigger] cands[j])
}

/// The first of `candidates` that is among `existing`.
pub fn first_existing(import_path: &str, candidates: &Vec<String>, existing: &Vec<String>) -> (r: Result<String, ModuleError>)
    ensures
        match r {
            Ok(p) => exists|i: int| 0 <= i < candidates@.len() && candidates@[i]@ == p@
                && views(existing@).contains(p@)
                && forall|j: int| 0 <= j < i ==> !views(existing@).contains(#[trigger] candidates@[j]@),
            Err(e) => e matches ModuleError::NotFound { module } && module@ == import_path@
                && forall|j: int| 0 <= j < candidates@.len() ==> !views(existing@).contains(#[trigger] candidates@[j]@),
        },
{
    let mut i: usize = 0;
    while i < candidates.len()
        invariant
            0 <= i <= candidates@.len(),
            forall|j: int| 0 <= j < i ==> !views(existing@).contains(#[trigger] candidates@[j]@),
        decreases candidates@.len() - i,
    {
        let mut k: usize = 0;
        while k < existing.len()
            invariant
                0 <= i < candidates@.len(),
                0 <= k <= existing@.len(),
                forall|j: int| 0 <= j < i ==> !views(existing@).contains(#[trigger] candidates@[j]@),
                forall|j: int| 0 <= j < k ==> existing@[j]@ != candidates@[i as int]@,
            decreases existing@.len() - k,
        {
            if existing[k] == candidates[i] {
                assert(views(existing@)[k as int] == candidates@[i as int]@);
                let p = candidates[i].clone();
                assert(0 <= i < candidates@.len() && candidates@[i as int]@ == p@
                    && views(existing@).contains(p@)
                    && forall|j: int| 0 <= j < i ==> !views(existing@).contains(#[trigger] candidates@[j]@));
                return Ok(p);
            }
            k = k + 1;
        }
        assert(!views(existing@).contains(candidates@[i as int]@));
        i = i + 1;
    }
    Err(ModuleError::NotFound { module: import_path.to_string() })
}

/// The file an import names (see `module_file`).
pub fn module_file_name(import_path: &str) -> (r: String)
    ensures
        r@ == module_file(import_path@),
{
    proof { reveal_strlit(".gol"); }
    let n = import_path.unicode_len();
    let has = n >= 4 && import_path.get_char(n - 4) == '.' && import_path.get_char(n - 3) == 'g'
        && import_path.get_char(n - 2) == 'o' && import_path.get_char(n - 1) == 'l';
    if has {
        assert(import_path@.subrange(n - 4, n as int) =~= seq!['.', 'g', 'o', 'l']);
        import_path.to_string()
    } else {
        assert(!has_gol_suffix(import_path@)) by {
            if n >= 4 {
                let t = import_path@.subrange(n - 4, n as int);
                if t == seq!['.', 'g', 'o', 'l'] {
                    assert(t[0] == import_path@[n - 4]);
                    assert(t[1] == import_path@[n - 3]);
                    assert(t[2] == import_path@[n - 2]);
                    assert(t[3] == import_path@[n - 1]);
                }
            }
        }
        let mut s = import_path.to_string();
        s.append(".gol");
        s
    }
}

/// `std::path::Path::parent` of `file`, as text: the path without its
/// final component, if it has one. The contract states that such a parent
/// begins the path (the standard library takes it as a slice of the path)
/// and that an empty path has none; how a path splits into components
/// depends on the platform and is not stated.
#[verifier::external_body]
fn path_parent(file: &str) -> (r: Option<String>)
    ensures
        r matches Some(p) ==> p@.len() <= file@.len() && file@.take(p@.len() as int) == p@,
        file@.len() == 0 ==> r is None,
{
    match std::path::Path::new(file).parent() {
        Some(dir) => Some(dir.to_string_lossy().into_owned()),
        None => None,
    }
}

/// `rest` taken relative to `base`.
///
/// Wraps `std::path::Path::join`. Nothing is stated of the result: the
/// separator, and what counts as an absolute path, depend on the
/// platform.
#[verifier::external_body]
fn join_path(base: &str, rest: &str) -> String {
    std::path::Path::new(base).join(rest).to_string_lossy().into_owned()
}

} // verus!
