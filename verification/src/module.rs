//! Module bookkeeping for `import`: where a module's source file may live,
//! the names given to functions brought in from modules, and a loader that
//! parses each module file once and refuses import cycles.
//!
//! The loader is a state machine: the caller looks files up and reads them,
//! and hands what it found to [`ModuleLoadState::load_stmts`] and
//! [`ModuleLoadState::finish_load`], which decide.

use vstd::prelude::*;
use crate::ast::{Stmt, stmts_v};
use crate::grammar::program_spec;
use crate::driver::parse_program;
use crate::text::{chars_of, append_str, append_chars, string_from_chars, to_string};

verus! {

/// What `Path::join` gives for `base` joined with `part`, as text.
pub uninterp spec fn joined(base: Seq<char>, part: Seq<char>) -> Seq<char>;

/// What `Path::parent` gives for the path `p`, as text.
pub uninterp spec fn parent_of(p: Seq<char>) -> Option<Seq<char>>;

/// `Path::join`: the contract claims only that the result's text is
/// `joined(base, part)`, a name for what the standard library computes.
#[verifier::external_body]
fn path_join(base: &str, part: &str) -> (r: String)
    ensures
        r@ == joined(base@, part@),
{
    std::path::Path::new(base).join(part).to_string_lossy().into_owned()
}

/// `Path::parent`: the contract claims only that the result's text is
/// `parent_of(p)`, a name for what the standard library computes.
#[verifier::external_body]
fn path_parent(p: &str) -> (r: Option<String>)
    ensures
        match (r, parent_of(p@)) {
            (Some(x), Some(y)) => x@ == y,
            (None, None) => true,
            _ => false,
        },
{
    std::path::Path::new(p).parent().map(|q| q.to_string_lossy().into_owned())
}

/// The two places a module may live: `<base>/<module>.hyp`, then
/// `<base>/<module>/mod.hyp`.
pub open spec fn candidates(base_dir: Seq<char>, module: Seq<char>) -> (Seq<char>, Seq<char>) {
    (joined(base_dir, module + ".hyp"@), joined(joined(base_dir, module), "mod.hyp"@))
}

/// The files that may hold `module`, in the order they are tried.
pub fn module_candidates(base_dir: &str, module: &str) -> (r: (String, String))
    ensures
        (r.0@, r.1@) == candidates(base_dir@, module@),
{
    let mut file: Vec<char> = chars_of(module);
    append_str(&mut file, ".hyp");
    let file = string_from_chars(file);
    let direct = path_join(base_dir, file.as_str());
    let dir = path_join(base_dir, module);
    let nested = path_join(dir.as_str(), "mod.hyp");
    (direct, nested)
}

/// The message for a module found in neither place.
pub open spec fn not_found_message(module: Seq<char>, direct: Seq<char>, nested: Seq<char>) -> Seq<char> {
    "module '"@ + module + "' not found (looked for "@ + direct + " and "@ + nested + ")"@
}

/// Picks the file of `module`: the first candidate when it is a file, else
/// the second when it is, else the not-found error.  Whether each candidate
/// is a file is the caller's to find out.
pub fn resolve_module_path(base_dir: &str, module: &str, direct_is_file: bool, nested_is_file: bool) -> (r: Result<String, String>)
    ensures
        direct_is_file ==> (r matches Ok(p) && p@ == candidates(base_dir@, module@).0),
        !direct_is_file && nested_is_file ==> (r matches Ok(p) && p@ == candidates(base_dir@, module@).1),
        !direct_is_file && !nested_is_file ==> (r matches Err(e) && e@ == not_found_message(
            module@,
            candidates(base_dir@, module@).0,
            candidates(base_dir@, module@).1,
        )),
{
    let (direct, nested) = module_candidates(base_dir, module);
    if direct_is_file {
        return Ok(direct);
    }
    if nested_is_file {
        return Ok(nested);
    }
    let mut msg: Vec<char> = Vec::new();
    append_str(&mut msg, "module '");
    append_str(&mut msg, module);
    append_str(&mut msg, "' not found (looked for ");
    append_str(&mut msg, direct.as_str());
    append_str(&mut msg, " and ");
    append_str(&mut msg, nested.as_str());
    append_str(&mut msg, ")");
    Err(string_from_chars(msg))
}

/// `syntax error in <path>`.
pub open spec fn syntax_error_message(path: Seq<char>) -> Seq<char> {
    "syntax error in "@ + path
}

/// Parses the source text of the module file at `path`; any scanning or
/// parsing diagnostic becomes the one error `syntax error in <path>`.
pub fn parse_module_file(path: &str, source: &str) -> (r: Result<Vec<Stmt>, String>)
    requires
        source@.len() < usize::MAX / 8,
    ensures
        r matches Err(e) ==> e@ == syntax_error_message(path@),
        r is Ok <==> program_spec(source@) is Some,
        r matches Ok(ss) ==> program_spec(source@) == Some(stmts_v(ss@)),
{
    match parse_program(source) {
        Ok(stmts) => Ok(stmts),
        Err(_) => {
            let mut msg: Vec<char> = Vec::new();
            append_str(&mut msg, "syntax error in ");
            append_str(&mut msg, path);
            Err(string_from_chars(msg))
        },
    }
}

/// The name a function `func` of module `module` gets once imported.
pub open spec fn mangled(module: Seq<char>, func: Seq<char>) -> Seq<char> {
    module + "__"@ + func
}

/// `module__func`.
pub fn mangle_module_fn(module: &str, func: &str) -> (r: String)
    ensures
        r@ == mangled(module@, func@),
{
    let mut out = chars_of(module);
    append_str(&mut out, "__");
    append_str(&mut out, func);
    string_from_chars(out)
}

/// The members of the modules that are built into the interpreter rather
/// than written in a `.hyp` file: `json` has `loads`, `dumps`, `load`, `dump`.
pub open spec fn builtin_members(module: Seq<char>) -> Option<Seq<Seq<char>>> {
    if module == "json"@ {
        Some(seq!["loads"@, "dumps"@, "load"@, "dump"@])
    } else {
        None
    }
}

pub fn builtin_module_members(module: &str) -> (r: Option<Vec<&'static str>>)
    ensures
        match (r, builtin_members(module@)) {
            (Some(v), Some(w)) => v@.map_values(|x: &str| x@) == w,
            (None, None) => true,
            _ => false,
        },
{
    let m = chars_of(module);
    if crate::text::chars_is(m.as_slice(), "json") {
        let v: Vec<&'static str> = vec!["loads", "dumps", "load", "dump"];
        assert(v@.map_values(|x: &str| x@) =~= seq!["loads"@, "dumps"@, "load"@, "dump"@]);
        Some(v)
    } else {
        None
    }
}

/// What the loader decides when asked for a module file.
#[derive(Debug, PartialEq)]
pub enum LoadStep {
    /// The file is being loaded further up the chain of imports.
    Circular(String),
    /// The file was parsed before; its statements are at this index.
    Cached(usize),
    /// The file is now marked as loading; its source text is wanted.
    NeedsSource,
}

/// The loader: the directory imports are resolved against, the files being
/// loaded, and the files parsed so far, each under its canonical path.
pub struct ModuleLoadState {
    pub base_dir: String,
    loading: Vec<String>,
    parsed: Vec<(String, Vec<Stmt>)>,
}

pub open spec fn texts(v: Seq<String>) -> Seq<Seq<char>> {
    v.map_values(|x: String| x@)
}

pub open spec fn keys_of(v: Seq<(String, Vec<Stmt>)>) -> Seq<Seq<char>> {
    v.map_values(|e: (String, Vec<Stmt>)| e.0@)
}

/// The message for an import cycle through `module`.
pub open spec fn circular_message(module: Seq<char>) -> Seq<char> {
    "circular import involving module '"@ + module + "'"@
}

impl ModuleLoadState {
    /// The directory imports are resolved against.
    pub closed spec fn base(&self) -> Seq<char> {
        self.base_dir@
    }

    /// The files being loaded.
    pub closed spec fn loading_keys(&self) -> Seq<Seq<char>> {
        texts(self.loading@)
    }

    /// The files parsed so far, in the order they were parsed.
    pub closed spec fn parsed_keys(&self) -> Seq<Seq<char>> {
        keys_of(self.parsed@)
    }

    /// The statements of the files parsed so far, in the same order.
    pub closed spec fn cache(&self) -> Seq<Vec<Stmt>> {
        self.parsed@.map_values(|e: (String, Vec<Stmt>)| e.1)
    }

    /// No file is listed twice, and none is both loading and parsed.
    pub closed spec fn wf(&self) -> bool {
        &&& self.loading_keys().no_duplicates()
        &&& self.parsed_keys().no_duplicates()
        &&& forall|k: Seq<char>| self.loading_keys().contains(k) ==> !self.parsed_keys().contains(k)
    }

    /// A loader for a program whose entry file is `entry_file`: imports are
    /// resolved against the entry file's directory (`.` when it has none).
    pub fn new(entry_file: &str) -> (r: ModuleLoadState)
        ensures
            r.wf(),
            r.base() == match parent_of(entry_file@) {
                Some(p) => p,
                None => "."@,
            },
            r.loading_keys() == Seq::<Seq<char>>::empty(),
            r.parsed_keys() == Seq::<Seq<char>>::empty(),
    {
        let base_dir = match path_parent(entry_file) {
            Some(p) => p,
            None => to_string("."),
        };
        let r = ModuleLoadState { base_dir, loading: Vec::new(), parsed: Vec::new() };
        assert(r.loading_keys() =~= Seq::<Seq<char>>::empty());
        assert(r.parsed_keys() =~= Seq::<Seq<char>>::empty());
        r
    }

    fn loading_index(&self, key: &str) -> (r: Option<usize>)
        ensures
            match r {
                Some(i) => i < self.loading_keys().len() && self.loading_keys()[i as int] == key@,
                None => !self.loading_keys().contains(key@),
            },
    {
        let k = to_string(key);
        let mut i: usize = 0;
        while i < self.loading.len()
            invariant
                i <= self.loading@.len(),
                k@ == key@,
                forall|j: int| 0 <= j < i ==> self.loading_keys()[j] != key@,
            decreases self.loading@.len() - i,
        {
            if self.loading[i].eq(&k) {
                return Some(i);
            }
            i = i + 1;
        }
        None
    }

    fn parsed_index(&self, key: &str) -> (r: Option<usize>)
        ensures
            match r {
                Some(i) => i < self.parsed_keys().len() && self.parsed_keys()[i as int] == key@,
                None => !self.parsed_keys().contains(key@),
            },
    {
        let k = to_string(key);
        let mut i: usize = 0;
        while i < self.parsed.len()
            invariant
                i <= self.parsed@.len(),
                k@ == key@,
                forall|j: int| 0 <= j < i ==> self.parsed_keys()[j] != key@,
            decreases self.parsed@.len() - i,
        {
            if self.parsed[i].0.eq(&k) {
                return Some(i);
            }
            i = i + 1;
        }
        None
    }

    /// Asks for `module`, whose file has the canonical path `key`.  A file
    /// that is loading means an import cycle; a parsed one is handed back from
    /// the cache; otherwise the file is marked as loading and its source is
    /// wanted (then [`Self::finish_load`]).
    pub fn load_stmts(&mut self, module: &str, key: &str) -> (r: LoadStep)
        requires
            old(self).wf(),
        ensures
            final(self).wf(),
            final(self).base() == old(self).base(),
            final(self).parsed_keys() == old(self).parsed_keys(),
            final(self).cache() == old(self).cache(),
            old(self).loading_keys().contains(key@) ==> (r matches LoadStep::Circular(e)
                && e@ == circular_message(module@) && final(self).loading_keys() == old(self).loading_keys()),
            old(self).parsed_keys().contains(key@) ==> (r matches LoadStep::Cached(i)
                && i < old(self).parsed_keys().len() && old(self).parsed_keys()[i as int] == key@
                && final(self).loading_keys() == old(self).loading_keys()),
            !old(self).loading_keys().contains(key@) && !old(self).parsed_keys().contains(key@)
                ==> (r matches LoadStep::NeedsSource
                && final(self).loading_keys() == old(self).loading_keys().push(key@)),
    {
        if let Some(_) = self.loading_index(key) {
            let mut msg: Vec<char> = Vec::new();
            append_str(&mut msg, "circular import involving module '");
            append_str(&mut msg, module);
            append_str(&mut msg, "'");
            return LoadStep::Circular(string_from_chars(msg));
        }
        if let Some(i) = self.parsed_index(key) {
            return LoadStep::Cached(i);
        }
        let ghost before = self.loading_keys();
        self.loading.push(to_string(key));
        assert(self.loading_keys() =~= before.push(key@));
        proof {
            assert forall|a: int, b: int| 0 <= a < b < self.loading_keys().len()
                implies self.loading_keys()[a] != self.loading_keys()[b] by {
                if b == before.len() {
                    assert(before.contains(before[a]));
                }
            }
        }
        LoadStep::NeedsSource
    }

    /// Gives up loading the file `key` (its source could not be read): the
    /// file leaves the loading set, nothing else changes, and a later
    /// request for it asks for its source again.
    pub fn abandon_load(&mut self, key: &str)
        requires
            old(self).wf(),
        ensures
            final(self).wf(),
            final(self).base() == old(self).base(),
            !final(self).loading_keys().contains(key@),
            forall|k: Seq<char>| k != key@ ==> (final(self).loading_keys().contains(k)
                <==> old(self).loading_keys().contains(k)),
            final(self).parsed_keys() == old(self).parsed_keys(),
            final(self).cache() == old(self).cache(),
    {
        let ghost lk = self.loading_keys();
        let at = match self.loading_index(key) {
            Some(i) => i,
            None => { return; },
        };
        self.loading.remove(at);
        assert(self.loading_keys() =~= lk.remove(at as int));
        proof {
            assert forall|k: Seq<char>| k != key@ implies (self.loading_keys().contains(k)
                <==> lk.contains(k)) by {
                if lk.contains(k) {
                    let x = choose|x: int| 0 <= x < lk.len() && lk[x] == k;
                    if x < at {
                        assert(self.loading_keys()[x] == k);
                    } else {
                        assert(x != at);
                        assert(self.loading_keys()[x - 1] == k);
                    }
                }
                if self.loading_keys().contains(k) {
                    let x = choose|x: int| 0 <= x < self.loading_keys().len() && self.loading_keys()[x] == k;
                    if x < at {
                        assert(lk[x] == k);
                    } else {
                        assert(lk[x + 1] == k);
                    }
                }
            }
            if self.loading_keys().contains(key@) {
                let x = choose|x: int| 0 <= x < self.loading_keys().len() && self.loading_keys()[x] == key@;
                if x < at {
                    assert(lk[x] == key@);
                } else {
                    assert(lk[x + 1] == key@);
                }
                assert(false);
            }
            assert forall|a: int, b: int| 0 <= a < b < self.loading_keys().len()
                implies self.loading_keys()[a] != self.loading_keys()[b] by {
                let a1 = if a < at { a } else { a + 1 };
                let b1 = if b < at { b } else { b + 1 };
                assert(self.loading_keys()[a] == lk[a1]);
                assert(self.loading_keys()[b] == lk[b1]);
            }
            assert forall|k: Seq<char>| self.loading_keys().contains(k) implies !self.parsed_keys().contains(k) by {
                assert(lk.contains(k));
            }
        }
    }

    /// Takes the source text of the loading file `key`, found at `path`, and
    /// parses it.  The file leaves the loading set either way; on success it
    /// joins the cache and the index of its statements is returned, so that a
    /// failed load leaves no import in progress.
    pub fn finish_load(&mut self, key: &str, path: &str, source: &str) -> (r: Result<usize, String>)
        requires
            old(self).wf(),
            old(self).loading_keys().contains(key@),
            source@.len() < usize::MAX / 8,
        ensures
            final(self).wf(),
            final(self).base() == old(self).base(),
            !final(self).loading_keys().contains(key@),
            forall|k: Seq<char>| k != key@ ==> (final(self).loading_keys().contains(k)
                <==> old(self).loading_keys().contains(k)),
            r is Ok <==> program_spec(source@) is Some,
            r matches Ok(i) ==> i == old(self).parsed_keys().len()
                && final(self).parsed_keys() == old(self).parsed_keys().push(key@)
                && final(self).cache().drop_last() == old(self).cache()
                && program_spec(source@) == Some(stmts_v(final(self).cache()[i as int]@)),
            r matches Err(e) ==> e@ == syntax_error_message(path@)
                && final(self).parsed_keys() == old(self).parsed_keys()
                && final(self).cache() == old(self).cache(),
    {
        self.abandon_load(key);
        let ghost pk = self.parsed_keys();
        match parse_module_file(path, source) {
            Err(e) => Err(e),
            Ok(stmts) => {
                let n = self.parsed.len();
                let ghost pc = self.cache();
                let ghost lk = self.loading_keys();
                self.parsed.push((to_string(key), stmts));
                assert(self.parsed_keys() =~= pk.push(key@));
                assert(self.cache().drop_last() =~= pc);
                assert(self.loading_keys() == lk);
                proof {
                    assert(!pk.contains(key@));
                    assert forall|a: int, b: int| 0 <= a < b < self.parsed_keys().len()
                        implies self.parsed_keys()[a] != self.parsed_keys()[b] by {
                        if b == pk.len() {
                            assert(pk.contains(pk[a]));
                        }
                    }
                    assert forall|k: Seq<char>| self.loading_keys().contains(k) implies !self.parsed_keys().contains(k) by {
                        assert(k != key@);
                        if self.parsed_keys().contains(k) {
                            let y = choose|y: int| 0 <= y < self.parsed_keys().len() && self.parsed_keys()[y] == k;
                            if y < pk.len() {
                                assert(pk.contains(k));
                            }
                        }
                    }
                }
                Ok(n)
            },
        }
    }


    /// The statements of the parsed file at `index`.
    pub fn stmts(&self, index: usize) -> (r: &Vec<Stmt>)
        requires
            index < self.parsed_keys().len(),
        ensures
            *r == self.cache()[index as int],
    {
        &self.parsed[index].1
    }
}

} // verus!
