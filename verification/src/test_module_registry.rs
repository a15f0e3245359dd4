//! The files of test-only modules declared out of line.
//!
//! A `#[cfg(test)] mod tests;` declaration puts the module's code in a file
//! of its own; that file, and every file below the module's directory, is
//! test-only code and is left out of discovery.
use vstd::prelude::*;

use crate::file_walker::ParsedFile;
use crate::impl_collector::{copy_strings, has_test_attr, is_test_attrs};
use crate::paths::{components_of, file_stem_of, path_components, path_file_stem, strings_view};
use crate::syntax::{ModItem, SourceItem};
use crate::text::str_eq;

verus! {

/// The directory, as path components, that holds the files of the modules a
/// source file declares: the file's own directory for `lib.rs`, `main.rs` and
/// `mod.rs`, else that directory followed by the file's stem.
pub open spec fn submodule_dir(path: Seq<char>) -> Seq<Seq<char>> {
    let components = path_components(path);
    let dir = if components.len() == 0 {
        components
    } else {
        components.drop_last()
    };
    let stem = match path_file_stem(path) {
        Some(stem) => stem,
        None => Seq::empty(),
    };
    if stem == "lib"@ || stem == "main"@ || stem == "mod"@ {
        dir
    } else {
        dir.push(stem)
    }
}

/// The test-only modules that a run of items declares, each as the path
/// components of the directory its files would stand in.
pub open spec fn test_modules_in(items: Seq<SourceItem>, dir: Seq<Seq<char>>) -> Seq<Seq<Seq<char>>>
    decreases items,
{
    if items.len() == 0 {
        Seq::empty()
    } else {
        test_modules_in(items.drop_last(), dir) + test_modules_of(items.last(), dir)
    }
}

/// The test-only modules that one item declares: the item itself where it is
/// a test-only module, else those declared inside an inline module.
pub open spec fn test_modules_of(item: SourceItem, dir: Seq<Seq<char>>) -> Seq<Seq<Seq<char>>>
    decreases item,
{
    match item {
        SourceItem::Mod(m) => if has_test_attr(m.attrs@) {
            seq![dir.push(m.name@)]
        } else {
            match m.content {
                Some(items) => test_modules_in(items@, dir.push(m.name@)),
                None => Seq::empty(),
            }
        },
        _ => Seq::empty(),
    }
}

/// The test-only modules declared across a set of parsed files, in order.
pub open spec fn registered_modules(files: Seq<ParsedFile>) -> Seq<Seq<Seq<char>>>
    decreases files.len(),
{
    if files.len() == 0 {
        Seq::empty()
    } else {
        registered_modules(files.drop_last()) + test_modules_in(
            files.last().syntax.items@,
            submodule_dir(files.last().path@),
        )
    }
}

/// Whether a file, by its path components, holds code of the module whose
/// directory is `module`: it is the module's own `.rs` file, or it lies
/// below the module's directory.
pub open spec fn lies_in_module(file: Seq<Seq<char>>, module: Seq<Seq<char>>) -> bool {
    &&& module.len() > 0
    &&& {
        ||| (file.len() == module.len() && file.drop_last() == module.drop_last() && file.last()
            == module.last() + ".rs"@)
        ||| (file.len() > module.len() && file.take(module.len() as int) == module)
    }
}

/// Whether a file holds code of any of the test-only modules.
pub open spec fn in_test_module(path: Seq<char>, modules: Seq<Seq<Seq<char>>>) -> bool {
    exists|i: int| 0 <= i < modules.len() && lies_in_module(path_components(path), #[trigger] modules[i])
}

proof fn lemma_test_modules_in_holds(items: Seq<SourceItem>, dir: Seq<Seq<char>>, j: int, m: ModItem)
    requires
        0 <= j < items.len(),
        items[j] == SourceItem::Mod(m),
        has_test_attr(m.attrs@),
    ensures
        test_modules_in(items, dir).contains(dir.push(m.name@)),
    decreases items.len(),
{
    let before = items.drop_last();
    if j < items.len() - 1 {
        assert(before[j] == items[j]);
        lemma_test_modules_in_holds(before, dir, j, m);
        let inner = test_modules_in(before, dir);
        let k = choose|k: int| 0 <= k < inner.len() && inner[k] == dir.push(m.name@);
        assert((inner + test_modules_of(items.last(), dir))[k] == dir.push(m.name@));
    } else {
        let inner = test_modules_in(before, dir);
        assert(test_modules_of(items.last(), dir) == seq![dir.push(m.name@)]);
        assert((inner + test_modules_of(items.last(), dir))[inner.len() as int] == dir.push(
            m.name@,
        ));
    }
}

proof fn lemma_registered_holds(files: Seq<ParsedFile>, k: int, module: Seq<Seq<char>>)
    requires
        0 <= k < files.len(),
        test_modules_in(files[k].syntax.items@, submodule_dir(files[k].path@)).contains(module),
    ensures
        registered_modules(files).contains(module),
    decreases files.len(),
{
    let before = files.drop_last();
    let mine = test_modules_in(files.last().syntax.items@, submodule_dir(files.last().path@));
    if k < files.len() - 1 {
        assert(before[k] == files[k]);
        lemma_registered_holds(before, k, module);
        let inner = registered_modules(before);
        let i = choose|i: int| 0 <= i < inner.len() && inner[i] == module;
        assert((inner + mine)[i] == module);
    } else {
        let inner = registered_modules(before);
        let i = choose|i: int| 0 <= i < mine.len() && mine[i] == module;
        assert((inner + mine)[inner.len() + i] == module);
    }
}

/// A `#[cfg(test)] mod m;` declared in a file excludes `m.rs` in the
/// directory of the declaring file's submodules: beside `lib.rs`, `main.rs`
/// or `mod.rs`, and in the directory named after any other file's stem.
pub proof fn law_test_module_file_is_excluded(
    files: Seq<ParsedFile>,
    k: int,
    j: int,
    m: ModItem,
    stem: Seq<char>,
    excluded: Seq<char>,
)
    requires
        0 <= k < files.len(),
        0 <= j < files[k].syntax.items@.len(),
        files[k].syntax.items@[j] == SourceItem::Mod(m),
        has_test_attr(m.attrs@),
        path_components(files[k].path@).len() > 0,
        path_file_stem(files[k].path@) == Some(stem),
        path_components(excluded) == path_components(files[k].path@).drop_last() + (if stem
            == "lib"@ || stem == "main"@ || stem == "mod"@ {
            Seq::<Seq<char>>::empty()
        } else {
            seq![stem]
        }) + seq![m.name@ + ".rs"@],
    ensures
        in_test_module(excluded, registered_modules(files)),
{
    let dir = submodule_dir(files[k].path@);
    let module = dir.push(m.name@);
    lemma_test_modules_in_holds(files[k].syntax.items@, dir, j, m);
    lemma_registered_holds(files, k, module);
    let modules = registered_modules(files);
    let i = choose|i: int| 0 <= i < modules.len() && modules[i] == module;
    let comps = path_components(excluded);
    assert(comps.drop_last() =~= module.drop_last());
    assert(lies_in_module(comps, modules[i]));
}

/// Module directories as plain values.
pub open spec fn modules_view(v: Seq<Vec<String>>) -> Seq<Seq<Seq<char>>> {
    v.map_values(|m: Vec<String>| strings_view(m@))
}

/// The test-only modules declared in a set of source files.
pub struct TestModuleRegistry {
    modules: Vec<Vec<String>>,
}

fn append_modules(all: &mut Vec<Vec<String>>, part: Vec<Vec<String>>)
    ensures
        modules_view(final(all)@) == modules_view(old(all)@) + modules_view(part@),
{
    let mut part = part;
    let ghost before = all@;
    let ghost added = part@;
    all.append(&mut part);
    assert(modules_view(all@) =~= modules_view(before) + modules_view(added));
}

/// Whether the first `n` strings of two sequences are the same.
fn same_prefix(a: &Vec<String>, b: &Vec<String>, n: usize) -> (same: bool)
    requires
        n <= a@.len(),
        n <= b@.len(),
    ensures
        same == (strings_view(a@).take(n as int) == strings_view(b@).take(n as int)),
{
    let mut i: usize = 0;
    while i < n
        invariant
            n <= a@.len(),
            n <= b@.len(),
            i <= n,
            forall|t: int| 0 <= t < i ==> a@[t]@ == b@[t]@,
        decreases n - i,
    {
        if !str_eq(a[i].as_str(), b[i].as_str()) {
            assert(strings_view(a@).take(n as int)[i as int] != strings_view(b@).take(
                n as int,
            )[i as int]);
            return false;
        }
        i += 1;
    }
    assert(strings_view(a@).take(n as int) =~= strings_view(b@).take(n as int));
    true
}

/// Whether a file, by its path components, holds code of a module.
fn lies_in(file: &Vec<String>, module: &Vec<String>) -> (inside: bool)
    ensures
        inside == lies_in_module(strings_view(file@), strings_view(module@)),
{
    let ghost f = strings_view(file@);
    let ghost m = strings_view(module@);
    let n = module.len();
    if n == 0 {
        return false;
    }
    if file.len() == n {
        let head_same = same_prefix(file, module, n - 1);
        assert(f.take(n - 1) =~= f.drop_last());
        assert(m.take(n - 1) =~= m.drop_last());
        let mut with_extension = module[n - 1].clone();
        with_extension.append(".rs");
        let last_same = str_eq(file[n - 1].as_str(), with_extension.as_str());
        head_same && last_same
    } else if file.len() > n {
        let same = same_prefix(file, module, n);
        assert(m.take(n as int) =~= m);
        same
    } else {
        false
    }
}

impl TestModuleRegistry {
    /// The directories of the registered test-only modules.
    pub closed spec fn modules(self) -> Seq<Seq<Seq<char>>> {
        modules_view(self.modules@)
    }

    /// The directory that holds the files of a source file's submodules.
    fn submodule_dir_of(path: &str) -> (dir: Vec<String>)
        ensures
            strings_view(dir@) == submodule_dir(path@),
    {
        let mut dir = components_of(path);
        let ghost components = strings_view(dir@);
        if dir.len() > 0 {
            dir.pop();
            assert(strings_view(dir@) =~= components.drop_last());
        }
        let stem = match file_stem_of(path) {
            Some(stem) => stem,
            None => String::new(),
        };
        if !(str_eq(stem.as_str(), "lib") || str_eq(stem.as_str(), "main") || str_eq(
            stem.as_str(),
            "mod",
        )) {
            let ghost before = dir@;
            dir.push(stem);
            assert(strings_view(dir@) =~= strings_view(before).push(stem@));
        }
        dir
    }

    fn modules_in(items: &Vec<SourceItem>, dir: &Vec<String>) -> (modules: Vec<Vec<String>>)
        ensures
            modules_view(modules@) == test_modules_in(items@, strings_view(dir@)),
        decreases items,
    {
        let ghost s = items@;
        let ghost d = strings_view(dir@);
        let mut all: Vec<Vec<String>> = Vec::new();
        let mut i: usize = 0;
        assert(modules_view(all@) =~= test_modules_in(s.take(0), d));
        while i < items.len()
            invariant
                s == items@,
                d == strings_view(dir@),
                i <= s.len(),
                modules_view(all@) == test_modules_in(s.take(i as int), d),
            decreases s.len() - i,
        {
            assert(decreases_to!(items => s[i as int]));
            assert(s.take(i + 1).drop_last() =~= s.take(i as int));
            let part = Self::modules_of(&items[i], dir);
            append_modules(&mut all, part);
            i += 1;
        }
        assert(s.take(s.len() as int) =~= s);
        all
    }

    fn modules_of(item: &SourceItem, dir: &Vec<String>) -> (modules: Vec<Vec<String>>)
        ensures
            modules_view(modules@) == test_modules_of(*item, strings_view(dir@)),
        decreases item,
    {
        let mut none: Vec<Vec<String>> = Vec::new();
        assert(modules_view(none@) =~= Seq::<Seq<Seq<char>>>::empty());
        match item {
            SourceItem::Mod(item_mod) => {
                let mut nested = copy_strings(dir.as_slice());
                nested.push(item_mod.name.clone());
                assert(strings_view(nested@) =~= strings_view(dir@).push(item_mod.name@));
                if is_test_attrs(item_mod.attrs.as_slice()) {
                    none.push(nested);
                    assert(modules_view(none@) =~= seq![strings_view(dir@).push(item_mod.name@)]);
                    none
                } else {
                    match &item_mod.content {
                        Some(items) => Self::modules_in(items, &nested),
                        None => none,
                    }
                }
            },
            _ => none,
        }
    }

    /// The test-only modules that the files declare.
    pub fn build(files: &[ParsedFile]) -> (registry: Self)
        ensures
            registry.modules() == registered_modules(files@),
    {
        let mut all: Vec<Vec<String>> = Vec::new();
        let mut i: usize = 0;
        assert(modules_view(all@) =~= registered_modules(files@.take(0)));
        while i < files.len()
            invariant
                i <= files@.len(),
                modules_view(all@) == registered_modules(files@.take(i as int)),
            decreases files@.len() - i,
        {
            assert(files@.take(i + 1).drop_last() =~= files@.take(i as int));
            let dir = Self::submodule_dir_of(files[i].path.as_str());
            let part = Self::modules_in(&files[i].syntax.items, &dir);
            append_modules(&mut all, part);
            i += 1;
        }
        assert(files@.take(files@.len() as int) =~= files@);
        TestModuleRegistry { modules: all }
    }

    /// Whether the file holds code of a registered test-only module.
    pub fn is_excluded(&self, file_path: &str) -> (excluded: bool)
        ensures
            excluded == in_test_module(file_path@, self.modules()),
    {
        let components = components_of(file_path);
        let ghost modules = self.modules();
        let mut i: usize = 0;
        while i < self.modules.len()
            invariant
                modules == modules_view(self.modules@),
                strings_view(components@) == path_components(file_path@),
                i <= self.modules@.len(),
                forall|t: int|
                    0 <= t < i ==> !lies_in_module(path_components(file_path@), #[trigger] modules[t]),
            decreases self.modules@.len() - i,
        {
            if lies_in(&components, &self.modules[i]) {
                assert(lies_in_module(path_components(file_path@), modules[i as int]));
                return true;
            }
            i += 1;
        }
        false
    }
}

} // verus!
