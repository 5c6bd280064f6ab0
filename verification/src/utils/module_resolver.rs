//! Parsed modules: which imports are to be loaded, and how the modules of a directory are grouped.

use vstd::prelude::*;
use crate::ast::{clone_texts, items_of, File, FileV, Item, ItemV};
use crate::text::{join_text, joined, same_text, texts};

verus! {

/// A parsed module.
#[derive(Debug)]
pub struct Module {
    /// Filesystem path of this module.
    pub path: String,
    pub file: File,
}

/// Mathematical model of [`Module`].
pub struct ModuleV {
    pub path: Seq<char>,
    pub file: FileV,
}

impl View for Module {
    type V = ModuleV;

    open spec fn view(&self) -> ModuleV {
        ModuleV { path: self.path@, file: self.file@ }
    }
}

/// The models of a list of modules.
pub open spec fn modules_of(s: Seq<Module>) -> Seq<ModuleV> {
    Seq::new(s.len(), |i: int| s[i]@)
}

/// A grouped collection of modules for VM-style verification.
#[derive(Debug)]
pub struct VmWorkspace {
    /// All parsed modules in this workspace (deduped by path).
    pub modules: Vec<Module>,
    /// Index of the compute entry module in `modules`, if found.
    pub compute_entry: Option<usize>,
    /// Index of the constraint entry module in `modules`, if found.
    pub constraint_entry: Option<usize>,
    /// Indices of shared input modules in `modules` (e.g., input.cz).
    pub input_modules: Vec<usize>,
}


/// The file that an import names, below a search root: `a::b::c` is in `a/b/c.cz`.
pub open spec fn import_path(segments: Seq<Seq<char>>) -> Seq<char> {
    joined(segments, "/"@) + ".cz"@
}

/// The file that an import names, below a search root: `a::b::c` is in `a/b/c.cz`.
pub fn import_file(segments: &Vec<String>) -> (r: String)
    ensures
        r@ == import_path(texts(segments@)),
{
    let mut out = join_text(segments, "/");
    out.append(".cz");
    out
}

/// Mathematical model of [`Loader`]: the modules loaded so far, the imports that have been handed
/// out, and the item that is looked at next.
pub struct LoaderV {
    pub modules: Seq<ModuleV>,
    pub visited: Seq<Seq<Seq<char>>>,
    pub at: int,
    pub item: int,
}

impl LoaderV {
    /// The import at an item.
    pub open spec fn import_at(self, m: int, k: int) -> Option<Seq<Seq<char>>> {
        match self.modules[m].file.items[k] {
            ItemV::Import { path, .. } => Some(path),
            _ => None,
        }
    }

    /// An item of the modules.
    pub open spec fn has_item(self, m: int, k: int) -> bool {
        0 <= m < self.modules.len() && 0 <= k < self.modules[m].file.items.len()
    }

    /// An item that has been looked at.
    pub open spec fn seen(self, m: int, k: int) -> bool {
        m < self.at || (m == self.at && k < self.item)
    }

    /// The next import that has not been handed out, and the loader after it.
    pub open spec fn scan(self) -> (Option<Seq<Seq<char>>>, LoaderV)
        decreases
                self.modules.len() - self.at,
                self.modules[self.at].file.items.len() - self.item,
    {
        if self.at < 0 || self.at >= self.modules.len() {
            (None, self)
        } else if self.item < 0 || self.item >= self.modules[self.at].file.items.len() {
            (LoaderV { at: self.at + 1, item: 0, ..self }).scan()
        } else {
            let next = LoaderV { item: self.item + 1, ..self };
            match self.import_at(self.at, self.item) {
                Some(path) => if self.visited.contains(path) {
                    next.scan()
                } else {
                    (Some(path), LoaderV { visited: self.visited.push(path), ..next })
                },
                None => next.scan(),
            }
        }
    }

    /// The loader with one more module.
    pub open spec fn with_module(self, m: ModuleV) -> LoaderV {
        LoaderV { modules: self.modules.push(m), ..self }
    }

    /// Every import that has been looked at has been handed out, once.
    #[verifier::opaque]
    pub open spec fn consistent(self) -> bool {
        &&& 0 <= self.at <= self.modules.len()
        &&& 0 <= self.item
        &&& self.at == self.modules.len() ==> self.item == 0
        &&& self.visited.no_duplicates()
        &&& forall|m: int, k: int|
            self.has_item(m, k) && self.seen(m, k) && (#[trigger] self.import_at(m, k)) is Some
                ==> self.visited.contains(self.import_at(m, k)->0)
    }
}

/// A loader hands out no import twice, and when it has none left every import of every module that
/// it holds has been handed out.
pub proof fn every_import_is_found_once(l: LoaderV)
    requires
        l.consistent(),
    ensures
        l.scan().1.consistent(),
        l.scan().1.modules == l.modules,
        match l.scan().0 {
            Some(path) => !l.visited.contains(path) && l.scan().1.visited == l.visited.push(path),
            None => l.scan().1.visited == l.visited && (forall|m: int, k: int|
                l.has_item(m, k) && (#[trigger] l.import_at(m, k)) is Some ==> l.visited.contains(
                    l.import_at(m, k)->0,
                )),
        },
    decreases l.modules.len() - l.at, l.modules[l.at].file.items.len() - l.item,
{
    reveal(LoaderV::consistent);
    if l.at < l.modules.len() {
        if l.item >= l.modules[l.at].file.items.len() {
            let next = LoaderV { at: l.at + 1, item: 0, ..l };
            assert forall|m: int, k: int|
                next.has_item(m, k) && next.seen(m, k) && (#[trigger] next.import_at(m, k)) is Some
                implies next.visited.contains(next.import_at(m, k)->0) by {
                assert(l.import_at(m, k) == next.import_at(m, k));
            }
            every_import_is_found_once(next);
            assert forall|m: int, k: int|
                next.scan().0 is None && l.has_item(m, k) && (#[trigger] l.import_at(m, k)) is Some
                implies l.visited.contains(l.import_at(m, k)->0) by {
                assert(l.import_at(m, k) == next.import_at(m, k));
            }
        } else {
            let next = LoaderV { item: l.item + 1, ..l };
            let found = l.import_at(l.at, l.item);
            if found is Some && !l.visited.contains(found->0) {
                let out = l.scan().1;
                assert forall|m: int, k: int|
                    out.has_item(m, k) && out.seen(m, k) && (#[trigger] out.import_at(m, k)) is Some
                    implies out.visited.contains(out.import_at(m, k)->0) by {
                    let p = l.import_at(m, k)->0;
                    if m == l.at && k == l.item {
                        assert(out.visited[l.visited.len() as int] == p);
                    } else {
                        assert(l.visited.contains(p));
                        let j = choose|j: int| 0 <= j < l.visited.len() && l.visited[j] == p;
                        assert(out.visited[j] == p);
                    }
                }
            } else {
                assert forall|m: int, k: int|
                    next.has_item(m, k) && next.seen(m, k) && (#[trigger] next.import_at(
                        m,
                        k,
                    )) is Some implies next.visited.contains(next.import_at(m, k)->0) by {
                    assert(l.import_at(m, k) == next.import_at(m, k));
                }
                every_import_is_found_once(next);
                assert forall|m: int, k: int|
                    next.scan().0 is None && l.has_item(m, k) && (#[trigger] l.import_at(
                        m,
                        k,
                    )) is Some implies l.visited.contains(l.import_at(m, k)->0) by {
                    assert(l.import_at(m, k) == next.import_at(m, k));
                }
            }
        }
    } else {
        assert forall|m: int, k: int|
            l.has_item(m, k) && (#[trigger] l.import_at(m, k)) is Some implies l.visited.contains(
            l.import_at(m, k)->0,
        ) by {
            assert(l.seen(m, k));
        }
    }
}

proof fn lemma_with_module(l: LoaderV, m: ModuleV)
    requires
        l.consistent(),
    ensures
        l.with_module(m).consistent(),
{
    reveal(LoaderV::consistent);
    let out = l.with_module(m);
    assert forall|i: int, k: int|
        out.has_item(i, k) && out.seen(i, k) && (#[trigger] out.import_at(i, k)) is Some
        implies out.visited.contains(out.import_at(i, k)->0) by {
        assert(i < l.modules.len());
        assert(out.modules[i] == l.modules[i]);
        assert(out.import_at(i, k) == l.import_at(i, k));
    }
}

/// Finds the transitive imports of an entry module. Whoever drives it reads and parses the files.
#[derive(Debug)]
pub struct Loader {
    modules: Vec<Module>,
    visited: Vec<Vec<String>>,
    at: usize,
    item: usize,
}

/// The models of a list of import paths.
pub open spec fn import_paths(s: Seq<Vec<String>>) -> Seq<Seq<Seq<char>>> {
    Seq::new(s.len(), |i: int| texts(s[i]@))
}

impl View for Loader {
    type V = LoaderV;

    closed spec fn view(&self) -> LoaderV {
        LoaderV {
            modules: modules_of(self.modules@),
            visited: import_paths(self.visited@),
            at: self.at as int,
            item: self.item as int,
        }
    }
}

fn same_texts(a: &Vec<String>, b: &Vec<String>) -> (r: bool)
    ensures
        r == (texts(a@) == texts(b@)),
{
    if a.len() != b.len() {
        proof {
            assert(texts(a@).len() != texts(b@).len());
        }
        return false;
    }
    #[verifier::loop_isolation(false)]
    for i in 0..a.len()
        invariant
            forall|j: int| 0 <= j < i ==> texts(a@)[j] == texts(b@)[j],
    {
        if !same_text(a[i].as_str(), b[i].as_str()) {
            proof {
                assert(texts(a@)[i as int] != texts(b@)[i as int]);
            }
            return false;
        }
    }
    proof {
        assert(texts(a@) =~= texts(b@));
    }
    true
}

fn has_path(all: &Vec<Vec<String>>, path: &Vec<String>) -> (r: bool)
    ensures
        r == import_paths(all@).contains(texts(path@)),
{
    let ghost ps = import_paths(all@);
    #[verifier::loop_isolation(false)]
    for i in 0..all.len()
        invariant
            forall|j: int| 0 <= j < i ==> ps[j] != texts(path@),
    {
        if same_texts(&all[i], path) {
            proof {
                assert(ps[i as int] == texts(path@));
            }
            return true;
        }
    }
    false
}

/// The path of an item that is an import and has not been handed out.
fn fresh_import(item: &Item, visited: &Vec<Vec<String>>) -> (r: Option<Vec<String>>)
    ensures
        match (r, item@) {
            (Some(p), ItemV::Import { path, .. }) => texts(p@) == path && !import_paths(
                visited@,
            ).contains(path),
            (Some(_), _) => false,
            (None, ItemV::Import { path, .. }) => import_paths(visited@).contains(path),
            (None, _) => true,
        },
{
    match item {
        Item::Import { path, .. } => if has_path(visited, path) {
            None
        } else {
            Some(clone_texts(path))
        },
        _ => None,
    }
}

impl Loader {
    /// The loader that holds an entry module.
    pub fn new(entry: Module) -> (r: Self)
        ensures
            r@ == (LoaderV { modules: seq![entry@], visited: seq![], at: 0, item: 0 }),
            r@.consistent(),
    {
        let mut modules: Vec<Module> = Vec::new();
        modules.push(entry);
        let r = Loader { modules, visited: Vec::new(), at: 0, item: 0 };
        proof {
            assert(r@.modules =~= seq![entry@]);
            assert(r@.visited =~= seq![]);
            reveal(LoaderV::consistent);
        }
        r
    }

    /// The next import that is to be loaded, if any is left. No import is handed out twice.
    pub fn next_import(&mut self) -> (r: Option<Vec<String>>)
        requires
            old(self)@.consistent(),
        ensures
            final(self)@.consistent(),
            final(self)@ == old(self)@.scan().1,
            match r {
                Some(path) => old(self)@.scan().0 == Some(texts(path@)),
                None => old(self)@.scan().0 is None,
            },
    {
        let ghost start = self@;
        proof {
            every_import_is_found_once(start);
        }
        #[verifier::loop_isolation(false)]
        while self.at < self.modules.len()
            invariant
                start.scan() == self@.scan(),
                self.modules@ == old(self).modules@,
            decreases
                    self@.modules.len() - self@.at,
                    self@.modules[self@.at].file.items.len() - self@.item,
        {
            let ghost before = self@;
            let ghost m = self.at as int;
            proof {
                assert(before.modules[m] == self.modules@[m]@);
            }
            if self.item >= self.modules[self.at].file.items.len() {
                self.at = self.at + 1;
                self.item = 0;
                proof {
                    assert(self@ == (LoaderV { at: before.at + 1, item: 0, ..before }));
                }
            } else {
                let item = self.item;
                proof {
                    assert(items_of(self.modules@[m].file.items@)[item as int]
                        == self.modules@[m].file.items@[item as int]@);
                }
                let found = fresh_import(&self.modules[self.at].file.items[item], &self.visited);
                self.item = item + 1;
                match found {
                    Some(path) => {
                        let ghost was = self.visited@;
                        let handed = clone_texts(&path);
                        self.visited.push(path);
                        proof {
                            assert(import_paths(self.visited@) =~= import_paths(was).push(
                                texts(path@),
                            ));
                            assert(self@ == before.scan().1);
                        }
                        return Some(handed);
                    },
                    None => {
                        proof {
                            assert(self@ == (LoaderV { item: before.item + 1, ..before }));
                        }
                    },
                }
            }
        }
        None
    }

    /// Adds the module that an import was loaded from.
    pub fn add(&mut self, module: Module)
        requires
            old(self)@.consistent(),
        ensures
            final(self)@ == old(self)@.with_module(module@),
            final(self)@.consistent(),
    {
        proof {
            lemma_with_module(self@, module@);
        }
        let ghost before = self.modules@;
        self.modules.push(module);
        proof {
            assert(modules_of(self.modules@) =~= modules_of(before).push(module@));
        }
    }

    /// The modules, in the order in which they were loaded.
    pub fn finish(self) -> (r: Vec<Module>)
        ensures
            modules_of(r@) == self@.modules,
    {
        self.modules
    }
}

/// The position of the first module with a path, from `i` on.
pub open spec fn path_index(mods: Seq<ModuleV>, path: Seq<char>, i: int) -> Option<usize>
    decreases mods.len() - i,
{
    if i < 0 || i >= mods.len() {
        None
    } else if mods[i].path == path {
        Some(i as usize)
    } else {
        path_index(mods, path, i + 1)
    }
}

/// The modules from `i` on whose paths are new, behind `acc`.
pub open spec fn deduped(mods: Seq<ModuleV>, i: int, acc: Seq<ModuleV>) -> Seq<ModuleV>
    decreases mods.len() - i,
{
    if i < 0 || i >= mods.len() {
        acc
    } else if path_index(acc, mods[i].path, 0) is Some {
        deduped(mods, i + 1, acc)
    } else {
        deduped(mods, i + 1, acc.push(mods[i]))
    }
}

/// A source file of a workspace.
#[derive(Debug)]
pub struct SourceFile {
    /// Canonical path of the file.
    pub path: String,
    /// Its name without the extension, where that is text.
    pub stem: Option<String>,
}

/// Mathematical model of [`SourceFile`].
pub struct SourceFileV {
    pub path: Seq<char>,
    pub stem: Option<Seq<char>>,
}

impl View for SourceFile {
    type V = SourceFileV;

    open spec fn view(&self) -> SourceFileV {
        SourceFileV {
            path: self.path@,
            stem: match self.stem {
                Some(s) => Some(s@),
                None => None,
            },
        }
    }
}

/// The models of a list of source files.
pub open spec fn sources_of(s: Seq<SourceFile>) -> Seq<SourceFileV> {
    Seq::new(s.len(), |i: int| s[i]@)
}

/// The position of the module of the first file with a name, from `i` on.
pub open spec fn entry_named(
    mods: Seq<ModuleV>,
    files: Seq<SourceFileV>,
    stem: Seq<char>,
    i: int,
) -> Option<usize>
    decreases files.len() - i,
{
    if i < 0 || i >= files.len() {
        None
    } else if files[i].stem == Some(stem) {
        path_index(mods, files[i].path, 0)
    } else {
        entry_named(mods, files, stem, i + 1)
    }
}

/// The positions of the modules of the files with a name from `i` on, behind `acc`.
pub open spec fn entries_named(
    mods: Seq<ModuleV>,
    files: Seq<SourceFileV>,
    stem: Seq<char>,
    i: int,
    acc: Seq<usize>,
) -> Seq<usize>
    decreases files.len() - i,
{
    if i < 0 || i >= files.len() {
        acc
    } else {
        let found = path_index(mods, files[i].path, 0);
        if files[i].stem == Some(stem) && found is Some {
            entries_named(mods, files, stem, i + 1, acc.push(found->0))
        } else {
            entries_named(mods, files, stem, i + 1, acc)
        }
    }
}

/// Modules with pairwise different paths.
pub open spec fn distinct_paths(mods: Seq<ModuleV>) -> bool {
    forall|i: int, j: int|
        0 <= i < j < mods.len() ==> (#[trigger] mods[i]).path != (#[trigger] mods[j]).path
}

/// Modules among which a path occurs.
pub open spec fn has_module(mods: Seq<ModuleV>, path: Seq<char>) -> bool {
    exists|i: int| 0 <= i < mods.len() && (#[trigger] mods[i]).path == path
}

/// A path is found iff it occurs, and the position that is found is one where it occurs.
pub proof fn index_is_right(mods: Seq<ModuleV>, path: Seq<char>, i: int)
    requires
        0 <= i <= mods.len(),
        mods.len() <= usize::MAX,
    ensures
        match path_index(mods, path, i) {
            Some(k) => i <= k < mods.len() && mods[k as int].path == path,
            None => forall|k: int| i <= k < mods.len() ==> (#[trigger] mods[k]).path != path,
        },
    decreases mods.len() - i,
{
    if i < mods.len() && mods[i].path != path {
        index_is_right(mods, path, i + 1);
    }
}

/// In a workspace no path occurs twice, and every path that was loaded occurs.
pub proof fn workspace_is_a_set(mods: Seq<ModuleV>, i: int, acc: Seq<ModuleV>)
    requires
        0 <= i <= mods.len(),
        distinct_paths(acc),
        acc.len() + mods.len() - i <= usize::MAX,
    ensures
        distinct_paths(deduped(mods, i, acc)),
        forall|path: Seq<char>|
            has_module(acc, path) ==> #[trigger] has_module(deduped(mods, i, acc), path),
        forall|k: int|
            i <= k < mods.len() ==> has_module(deduped(mods, i, acc), (#[trigger] mods[k]).path),
    decreases mods.len() - i,
{
    if i < mods.len() {
        let m = mods[i];
        index_is_right(acc, m.path, 0);
        let next = if path_index(acc, m.path, 0) is Some {
            acc
        } else {
            acc.push(m)
        };
        assert(distinct_paths(next));
        assert(has_module(next, m.path)) by {
            if path_index(acc, m.path, 0) is Some {
                assert(next[path_index(acc, m.path, 0)->0 as int].path == m.path);
            } else {
                assert(next[acc.len() as int].path == m.path);
            }
        }
        assert forall|path: Seq<char>| has_module(acc, path) implies has_module(next, path) by {
            let k = choose|k: int| 0 <= k < acc.len() && (#[trigger] acc[k]).path == path;
            assert(next[k].path == path);
        }
        workspace_is_a_set(mods, i + 1, next);
    }
}

fn find_path(mods: &Vec<Module>, path: &str) -> (r: Option<usize>)
    ensures
        r == path_index(modules_of(mods@), path@, 0),
{
    let ghost all = modules_of(mods@);
    #[verifier::loop_isolation(false)]
    for i in 0..mods.len()
        invariant
            path_index(all, path@, 0) == path_index(all, path@, i as int),
    {
        proof {
            assert(all[i as int] == mods@[i as int]@);
        }
        if same_text(mods[i].path.as_str(), path) {
            return Some(i);
        }
    }
    None
}

fn named(f: &SourceFile, stem: &str) -> (r: bool)
    ensures
        r == (f@.stem == Some(stem@)),
{
    match &f.stem {
        Some(s) => same_text(s.as_str(), stem),
        None => false,
    }
}

fn find_entry(mods: &Vec<Module>, files: &Vec<SourceFile>, stem: &str) -> (r: Option<usize>)
    ensures
        r == entry_named(modules_of(mods@), sources_of(files@), stem@, 0),
{
    let ghost ms = modules_of(mods@);
    let ghost all = sources_of(files@);
    #[verifier::loop_isolation(false)]
    for i in 0..files.len()
        invariant
            entry_named(ms, all, stem@, 0) == entry_named(ms, all, stem@, i as int),
    {
        proof {
            assert(all[i as int] == files@[i as int]@);
        }
        if named(&files[i], stem) {
            return find_path(mods, files[i].path.as_str());
        }
    }
    None
}

fn find_entries(mods: &Vec<Module>, files: &Vec<SourceFile>, stem: &str) -> (r: Vec<usize>)
    ensures
        r@ == entries_named(modules_of(mods@), sources_of(files@), stem@, 0, seq![]),
{
    let ghost ms = modules_of(mods@);
    let ghost all = sources_of(files@);
    let mut out: Vec<usize> = Vec::new();
    #[verifier::loop_isolation(false)]
    for i in 0..files.len()
        invariant
            entries_named(ms, all, stem@, 0, seq![]) == entries_named(
                ms,
                all,
                stem@,
                i as int,
                out@,
            ),
    {
        proof {
            assert(all[i as int] == files@[i as int]@);
        }
        if named(&files[i], stem) {
            if let Some(k) = find_path(mods, files[i].path.as_str()) {
                out.push(k);
            }
        }
    }
    out
}

fn dedup_modules(loaded: Vec<Module>) -> (r: Vec<Module>)
    ensures
        modules_of(r@) == deduped(modules_of(loaded@), 0, seq![]),
{
    let ghost all = modules_of(loaded@);
    let mut out: Vec<Module> = Vec::new();
    proof {
        assert(modules_of(out@) =~= seq![]);
    }
    let ghost total = deduped(all, 0, seq![]);
    #[verifier::loop_isolation(false)]
    for m in it: loaded
        invariant
            it.seq() == loaded@,
            total == deduped(all, it.index() as int, modules_of(out@)),
    {
        proof {
            assert(all[it.index() as int] == m@);
        }
        if find_path(&out, m.path.as_str()).is_none() {
            let ghost before = out@;
            out.push(m);
            proof {
                assert(modules_of(out@) =~= modules_of(before).push(m@));
            }
        }
    }
    out
}

/// Groups the modules loaded from the files of a directory: each path is kept once, and the
/// conventional entry points (compute.cz, constraint.cz, input.cz) are picked out.
pub fn assemble_workspace(files: &Vec<SourceFile>, loaded: Vec<Module>) -> (r: VmWorkspace)
    ensures
        modules_of(r.modules@) == deduped(modules_of(loaded@), 0, seq![]),
        r.compute_entry == entry_named(
            modules_of(r.modules@),
            sources_of(files@),
            "compute"@,
            0,
        ),
        r.constraint_entry == entry_named(
            modules_of(r.modules@),
            sources_of(files@),
            "constraint"@,
            0,
        ),
        r.input_modules@ == entries_named(
            modules_of(r.modules@),
            sources_of(files@),
            "input"@,
            0,
            seq![],
        ),
{
    let modules = dedup_modules(loaded);
    let compute_entry = find_entry(&modules, files, "compute");
    let constraint_entry = find_entry(&modules, files, "constraint");
    let input_modules = find_entries(&modules, files, "input");
    VmWorkspace { modules, compute_entry, constraint_entry, input_modules }
}

} // verus!
