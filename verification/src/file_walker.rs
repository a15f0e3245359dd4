//! Which source files of a package are analysed, and under which names.
use vstd::prelude::*;

use crate::complexity::{block_score, checked_cognitive_complexity};
use crate::impl_collector::{
    copy_strings, has_test_attr, impl_found, is_test_attrs, members_found, qualified, qualified_name,
    receiver_view, self_type_name, ImplCollector,
};
use crate::package_context::PackageContext;
use crate::paths::{
    components_of, file_stem_of, option_view, parent_path, path_components, path_file_stem, path_join,
    path_parent, path_strip_prefix, strings_view, strip_path_prefix,
};
use crate::source_function::{
    append_found, complexities_fit, found_as, functions_view, lemma_fit_concat, lemma_lines_concat,
    lines_ordered, FunctionView,
    SourceFunction,
};
use crate::syntax::{
    item_lines_in_order, items_lines_in_order, members_lines_in_order, parse_source, parsed_source,
    ImplMember, FnItem, SourceItem, ModItem, SyntaxFile};
use crate::test_module_registry::{in_test_module, registered_modules, TestModuleRegistry};
use crate::text::{
    chars_eq, chars_of, ends_with, first_segment, first_slash, has_prefix, has_suffix, replace_char,
    replaced, starts_with, str_eq, string_from_chars,
};

verus! {

/// A path with every backslash turned into a forward slash.
pub open spec fn slashed(path: Seq<char>) -> Seq<char> {
    replaced(path, '\\', '/')
}

/// The key under which a file's functions and coverage records meet: its
/// canonical path with forward slashes. The caller canonicalises the path
/// (that reads the file system) and hands over the result.
pub fn normalize_path(canonical_path: &str) -> (key: String)
    ensures
        key@ == slashed(canonical_path@),
{
    replace_char(canonical_path, '\\', '/')
}

/// A file's path relative to `base_dir`, with forward slashes; the whole
/// path where `base_dir` is not one of its ancestors.
pub open spec fn relative_file_spec(base_dir: Seq<char>, file_path: Seq<char>) -> Seq<char> {
    slashed(
        match path_strip_prefix(file_path, base_dir) {
            Some(rest) => rest,
            None => file_path,
        },
    )
}

/// Whether a source file belongs to the analysis, judged by where it stands
/// below the package's manifest directory: files under `examples/` and
/// `benches/` never do, those under `tests/` only with test targets, and
/// build scripts never do. Both paths are canonical, as the caller found them.
pub open spec fn source_file_selected(
    canonical_base_dir: Seq<char>,
    canonical_file_path: Seq<char>,
    include_test_targets: bool,
) -> bool {
    let base = slashed(canonical_base_dir);
    let file = slashed(canonical_file_path);
    if !has_prefix(file, base) {
        true
    } else {
        let rest = file.skip(base.len() as int);
        let relative = if rest.len() > 0 && rest[0] == '/' {
            rest.skip(1)
        } else {
            rest
        };
        let first = first_segment(relative);
        if first == "examples"@ || first == "benches"@ {
            false
        } else if first == "tests"@ {
            include_test_targets
        } else {
            !has_suffix(relative, "/build.rs"@) && relative != "build.rs"@
        }
    }
}

/// Whether one `--exclude-path` entry excludes a relative file: the file lies
/// below it, or is it.
pub open spec fn excluded_by(relative_file: Seq<char>, exclude_path: Seq<char>) -> bool {
    let normalised = slashed(exclude_path);
    let with_slash = if normalised.len() > 0 && normalised.last() == '/' {
        normalised
    } else {
        normalised.push('/')
    };
    has_prefix(relative_file, with_slash) || relative_file == normalised
}

/// Whether any `--exclude-path` entry excludes the relative file.
pub open spec fn excluded_by_any(relative_file: Seq<char>, exclude_paths: Seq<String>) -> bool {
    exists|i: int| 0 <= i < exclude_paths.len() && excluded_by(relative_file, #[trigger] exclude_paths[i]@)
}

/// Whether a relative file belongs to the analysis by its own path.
pub open spec fn relative_file_selected(relative_file: Seq<char>, include_test_targets: bool) -> bool {
    &&& !has_prefix(relative_file, "examples/"@)
    &&& !has_prefix(relative_file, "benches/"@)
    &&& relative_file != "build.rs"@
    &&& include_test_targets || !has_prefix(relative_file, "tests/"@)
}

/// The module path of a file below its source root: the directories between
/// them, then the file's stem unless it is `lib`, `main` or `mod`.
pub open spec fn module_prefix_spec(source_root: Seq<char>, file_path: Seq<char>) -> Seq<Seq<char>> {
    let relative = match path_strip_prefix(file_path, source_root) {
        Some(rest) => rest,
        None => file_path,
    };
    let directories = match path_parent(relative) {
        Some(parent) => path_components(parent),
        None => Seq::empty(),
    };
    let stem = match path_file_stem(file_path) {
        Some(stem) => stem,
        None => Seq::empty(),
    };
    if stem == "lib"@ || stem == "main"@ || stem == "mod"@ {
        directories
    } else {
        directories.push(stem)
    }
}


/// Where a function is found: its package, its file's key and relative path,
/// and the file's module path.
pub struct Site {
    pub package_name: Seq<char>,
    pub path_key: Seq<char>,
    pub relative_file: Seq<char>,
    pub module_prefix: Seq<Seq<char>>,
}

pub open spec fn site_of(
    package: PackageContext,
    path_key: Seq<char>,
    relative_file: Seq<char>,
    module_prefix: Seq<String>,
) -> Site {
    Site {
        package_name: package.name@,
        path_key,
        relative_file,
        module_prefix: strings_view(module_prefix),
    }
}

/// What recording one function finds: nothing for a test function, else the
/// function under its qualified name with the complexity of its body.
pub open spec fn recorded(
    f: FnItem,
    receiver: Option<Seq<char>>,
    site: Site,
    inline_modules: Seq<Seq<char>>,
) -> Seq<FunctionView> {
    if has_test_attr(f.attrs@) {
        Seq::empty()
    } else {
        seq![
            FunctionView {
                package_name: site.package_name,
                name: qualified(site.module_prefix, inline_modules, receiver, f.name@),
                path_key: site.path_key,
                relative_file: site.relative_file,
                line: f.line,
                end_line: f.end_line,
                complexity: block_score(f.block, 0),
            },
        ]
    }
}

/// The functions found in a sequence of items, in order.
pub open spec fn items_found(items: Seq<SourceItem>, site: Site, inline_modules: Seq<Seq<char>>) -> Seq<
    FunctionView,
>
    decreases items,
{
    if items.len() == 0 {
        Seq::empty()
    } else {
        items_found(items.drop_last(), site, inline_modules) + item_found(
            items.last(),
            site,
            inline_modules,
        )
    }
}

/// The functions found in one item: a free function, the methods of an
/// `impl` block and the functions of an inline module, none of them in
/// test-only code.
pub open spec fn item_found(item: SourceItem, site: Site, inline_modules: Seq<Seq<char>>) -> Seq<
    FunctionView,
>
    decreases item,
{
    match item {
        SourceItem::Fn(f) => recorded(f, None, site, inline_modules),
        SourceItem::Impl(i) => if has_test_attr(i.attrs@) {
            Seq::empty()
        } else {
            impl_found(i, site, inline_modules)
        },
        SourceItem::Mod(m) => if has_test_attr(m.attrs@) {
            Seq::empty()
        } else {
            match m.content {
                Some(items) => items_found(items@, site, inline_modules.push(m.name@)),
                None => Seq::empty(),
            }
        },
        SourceItem::Other => Seq::empty(),
    }
}

/// The functions found in an inline module; an out-of-line one has none here.
pub open spec fn module_found(m: ModItem, site: Site, inline_modules: Seq<Seq<char>>) -> Seq<
    FunctionView,
> {
    match m.content {
        Some(items) => items_found(items@, site, inline_modules.push(m.name@)),
        None => Seq::empty(),
    }
}

/// A prefix of a run of items fits wherever the whole run does.
pub proof fn lemma_items_prefix_fit(
    items: Seq<SourceItem>,
    k: int,
    site: Site,
    inline_modules: Seq<Seq<char>>,
)
    requires
        0 <= k <= items.len(),
        complexities_fit(items_found(items, site, inline_modules)),
    ensures
        complexities_fit(items_found(items.take(k), site, inline_modules)),
    decreases items.len(),
{
    if k < items.len() {
        lemma_fit_concat(
            items_found(items.drop_last(), site, inline_modules),
            item_found(items.last(), site, inline_modules),
        );
        assert(items.drop_last().take(k) =~= items.take(k));
        lemma_items_prefix_fit(items.drop_last(), k, site, inline_modules);
    } else {
        assert(items.take(k) =~= items);
    }
}

/// A source file as the walk found and parsed it: the path it was found
/// under, its canonical path, and its syntax.
#[derive(Debug)]
pub struct ParsedFile {
    pub path: String,
    pub canonical_path: String,
    pub syntax: SyntaxFile,
}

/// A source text that does not parse, with the parser's account of why.
#[derive(Debug, Clone)]
pub struct ParseFailure {
    pub message: String,
}

/// A walked file with its parsed syntax: `path` as the walk found it,
/// `canonical_path` as the file system resolves it, and the syntax that
/// parsing `text` gives; a failure exactly where `text` does not parse.
pub fn parsed_file(path: &str, canonical_path: &str, text: &str) -> (parsed: Result<
    ParsedFile,
    ParseFailure,
>)
    ensures
        match parsed {
            Ok(file) => {
                &&& file.path@ == path@
                &&& file.canonical_path@ == canonical_path@
                &&& Some(file.syntax) == parsed_source(text@)
            },
            Err(_) => parsed_source(text@) is None,
        },
        parsed matches Ok(file) ==> items_lines_in_order(file.syntax.items@),
{
    match parse_source(text) {
        Ok(syntax) => Ok(
            ParsedFile { path: path.to_owned(), canonical_path: canonical_path.to_owned(), syntax },
        ),
        Err(message) => Err(ParseFailure { message }),
    }
}

/// Whether a walked file is analysed: by its path relative to the manifest
/// directory, by where its canonical path stands below the canonical
/// manifest directory, and by the `--exclude-path` entries.
pub open spec fn file_selected(
    manifest_dir: Seq<char>,
    include_test_targets: bool,
    exclude_paths: Seq<String>,
    file_path: Seq<char>,
    canonical_manifest_dir: Seq<char>,
    canonical_file_path: Seq<char>,
) -> bool {
    let relative = relative_file_spec(manifest_dir, file_path);
    &&& relative_file_selected(relative, include_test_targets)
    &&& source_file_selected(canonical_manifest_dir, canonical_file_path, include_test_targets)
    &&& !excluded_by_any(relative, exclude_paths)
}

/// The functions of one parsed file below a source root.
pub open spec fn file_found(package: PackageContext, source_root: Seq<char>, file: ParsedFile) -> Seq<
    FunctionView,
> {
    items_found(
        file.syntax.items@,
        Site {
            package_name: package.name@,
            path_key: slashed(file.canonical_path@),
            relative_file: relative_file_spec(package.manifest_dir@, file.path@),
            module_prefix: module_prefix_spec(source_root, file.path@),
        },
        Seq::empty(),
    )
}

/// The functions of the files below a source root, in order, leaving out the
/// files of the given test-only modules.
pub open spec fn files_found(
    package: PackageContext,
    source_root: Seq<char>,
    files: Seq<ParsedFile>,
    test_modules: Seq<Seq<Seq<char>>>,
) -> Seq<FunctionView>
    decreases files.len(),
{
    if files.len() == 0 {
        Seq::empty()
    } else {
        files_found(package, source_root, files.drop_last(), test_modules) + if in_test_module(
            files.last().path@,
            test_modules,
        ) {
            Seq::empty()
        } else {
            file_found(package, source_root, files.last())
        }
    }
}

/// The functions of a source root whose selected files were parsed.
pub open spec fn root_found(package: PackageContext, source_root: Seq<char>, files: Seq<ParsedFile>) -> Seq<
    FunctionView,
> {
    files_found(package, source_root, files, registered_modules(files))
}

proof fn lemma_files_prefix_fit(
    package: PackageContext,
    source_root: Seq<char>,
    files: Seq<ParsedFile>,
    test_modules: Seq<Seq<Seq<char>>>,
    k: int,
)
    requires
        0 <= k <= files.len(),
        complexities_fit(files_found(package, source_root, files, test_modules)),
    ensures
        complexities_fit(files_found(package, source_root, files.take(k), test_modules)),
    decreases files.len(),
{
    if k < files.len() {
        lemma_fit_concat(
            files_found(package, source_root, files.drop_last(), test_modules),
            if in_test_module(files.last().path@, test_modules) {
                Seq::empty()
            } else {
                file_found(package, source_root, files.last())
            },
        );
        assert(files.drop_last().take(k) =~= files.take(k));
        lemma_files_prefix_fit(package, source_root, files.drop_last(), test_modules, k);
    } else {
        assert(files.take(k) =~= files);
    }
}

/// Test-only code holds no function: a function, an `impl` block or an
/// inline module marked `#[test]` or `#[cfg(test)]` is found to hold none.
pub proof fn law_test_items_hold_no_functions(
    item: SourceItem,
    site: Site,
    inline_modules: Seq<Seq<char>>,
)
    requires
        match item {
            SourceItem::Fn(f) => has_test_attr(f.attrs@),
            SourceItem::Impl(i) => has_test_attr(i.attrs@),
            SourceItem::Mod(m) => has_test_attr(m.attrs@),
            SourceItem::Other => true,
        },
    ensures
        item_found(item, site, inline_modules) == Seq::<FunctionView>::empty(),
{
}

proof fn lemma_files_found_concat(
    package: PackageContext,
    source_root: Seq<char>,
    a: Seq<ParsedFile>,
    b: Seq<ParsedFile>,
    test_modules: Seq<Seq<Seq<char>>>,
)
    ensures
        files_found(package, source_root, a + b, test_modules) == files_found(
            package,
            source_root,
            a,
            test_modules,
        ) + files_found(package, source_root, b, test_modules),
    decreases b.len(),
{
    if b.len() == 0 {
        assert(a + b =~= a);
    } else {
        assert((a + b).drop_last() =~= a + b.drop_last());
        assert((a + b).last() == b.last());
        lemma_files_found_concat(package, source_root, a, b.drop_last(), test_modules);
    }
}

/// A file that lies in a test-only module declared out of line contributes
/// no function: the source root yields what it would yield without that
/// file.
pub proof fn law_test_module_files_hold_no_functions(
    package: PackageContext,
    source_root: Seq<char>,
    files: Seq<ParsedFile>,
    k: int,
)
    requires
        0 <= k < files.len(),
        in_test_module(files[k].path@, registered_modules(files)),
    ensures
        root_found(package, source_root, files) == files_found(
            package,
            source_root,
            files.remove(k),
            registered_modules(files),
        ),
{
    let modules = registered_modules(files);
    assert(files =~= files.take(k) + seq![files[k]] + files.skip(k + 1));
    assert(files.remove(k) =~= files.take(k) + files.skip(k + 1));
    lemma_files_found_concat(
        package,
        source_root,
        files.take(k) + seq![files[k]],
        files.skip(k + 1),
        modules,
    );
    lemma_files_found_concat(package, source_root, files.take(k), seq![files[k]], modules);
    lemma_files_found_concat(package, source_root, files.take(k), files.skip(k + 1), modules);
    assert(seq![files[k]].drop_last() =~= Seq::<ParsedFile>::empty());
    assert(seq![files[k]].last() == files[k]);
    assert(files_found(package, source_root, Seq::<ParsedFile>::empty(), modules) =~= Seq::<
        FunctionView,
    >::empty());
    assert(files_found(package, source_root, seq![files[k]], modules) =~= Seq::<
        FunctionView,
    >::empty());
}

/// Whatever the options, no file under `examples/` or `benches/` and no
/// top-level `build.rs` is analysed, and a file under `tests/` only where
/// test targets are included.
pub proof fn law_shipped_code_only(relative_file: Seq<char>, include_test_targets: bool)
    ensures
        has_prefix(relative_file, "examples/"@) ==> !relative_file_selected(
            relative_file,
            include_test_targets,
        ),
        has_prefix(relative_file, "benches/"@) ==> !relative_file_selected(
            relative_file,
            include_test_targets,
        ),
        relative_file == "build.rs"@ ==> !relative_file_selected(relative_file, include_test_targets),
        has_prefix(relative_file, "tests/"@) ==> !relative_file_selected(relative_file, false),
{
}

proof fn lemma_members_lines(
    members: Seq<ImplMember>,
    receiver: Seq<char>,
    site: Site,
    inline_modules: Seq<Seq<char>>,
)
    requires
        members_lines_in_order(members),
    ensures
        lines_ordered(members_found(members, receiver, site, inline_modules)),
    decreases members.len(),
{
    if members.len() > 0 {
        let before = members.drop_last();
        assert forall|i: int| 0 <= i < before.len() implies (#[trigger] before[i] matches ImplMember::Fn(
            f,
        ) ==> f.line <= f.end_line) by {
            assert(before[i] == members[i]);
        }
        lemma_members_lines(before, receiver, site, inline_modules);
        let last = match members.last() {
            ImplMember::Fn(f) => recorded(f, Some(receiver), site, inline_modules),
            ImplMember::Other => Seq::empty(),
        };
        assert(members[members.len() - 1] == members.last());
        assert(lines_ordered(last));
        lemma_lines_concat(members_found(before, receiver, site, inline_modules), last);
    }
}

proof fn lemma_items_lines(items: Seq<SourceItem>, site: Site, inline_modules: Seq<Seq<char>>)
    requires
        items_lines_in_order(items),
    ensures
        lines_ordered(items_found(items, site, inline_modules)),
    decreases items,
{
    if items.len() > 0 {
        lemma_items_lines(items.drop_last(), site, inline_modules);
        lemma_item_lines(items.last(), site, inline_modules);
        lemma_lines_concat(
            items_found(items.drop_last(), site, inline_modules),
            item_found(items.last(), site, inline_modules),
        );
    }
}

proof fn lemma_item_lines(item: SourceItem, site: Site, inline_modules: Seq<Seq<char>>)
    requires
        item_lines_in_order(item),
    ensures
        lines_ordered(item_found(item, site, inline_modules)),
    decreases item,
{
    match item {
        SourceItem::Fn(f) => {},
        SourceItem::Impl(i) => {
            if !has_test_attr(i.attrs@) {
                lemma_members_lines(i.members@, self_type_name(i.self_type@), site, inline_modules);
            }
        },
        SourceItem::Mod(m) => {
            if !has_test_attr(m.attrs@) {
                match m.content {
                    Some(items) => lemma_items_lines(items@, site, inline_modules.push(m.name@)),
                    None => {},
                }
            }
        },
        SourceItem::Other => {},
    }
}

/// Functions found in parsed files begin on a line no later than their last,
/// where every file's functions do, as a parsed file's do.
pub proof fn law_found_functions_begin_before_they_end(
    package: PackageContext,
    source_root: Seq<char>,
    files: Seq<ParsedFile>,
    test_modules: Seq<Seq<Seq<char>>>,
)
    requires
        forall|k: int| 0 <= k < files.len() ==> items_lines_in_order((#[trigger] files[k]).syntax.items@),
    ensures
        lines_ordered(files_found(package, source_root, files, test_modules)),
    decreases files.len(),
{
    if files.len() > 0 {
        let before = files.drop_last();
        assert forall|k: int| 0 <= k < before.len() implies items_lines_in_order(
            (#[trigger] before[k]).syntax.items@,
        ) by {
            assert(before[k] == files[k]);
        }
        law_found_functions_begin_before_they_end(package, source_root, before, test_modules);
        let last = files.last();
        assert(files[files.len() - 1] == last);
        lemma_items_lines(
            last.syntax.items@,
            Site {
                package_name: package.name@,
                path_key: slashed(last.canonical_path@),
                relative_file: relative_file_spec(package.manifest_dir@, last.path@),
                module_prefix: module_prefix_spec(source_root, last.path@),
            },
            Seq::empty(),
        );
        lemma_lines_concat(
            files_found(package, source_root, before, test_modules),
            if in_test_module(last.path@, test_modules) {
                Seq::empty()
            } else {
                file_found(package, source_root, last)
            },
        );
    }
}

/// Walks the source files of one package.
pub struct FileWalker<'a> {
    pub package: &'a PackageContext,
    pub include_test_targets: bool,
    pub exclude_paths: &'a [String],
}

impl<'a> FileWalker<'a> {
    /// A walker over the given package, with its test-target and exclusion
    /// options.
    pub fn new(package: &'a PackageContext) -> (walker: Self)
        ensures
            walker.package == package,
            walker.include_test_targets == package.include_test_targets,
            walker.exclude_paths@ == package.exclude_paths@,
    {
        FileWalker {
            package,
            include_test_targets: package.include_test_targets,
            exclude_paths: package.exclude_paths.as_slice(),
        }
    }

    /// Whether a walked file is analysed; `canonical_manifest_dir` and
    /// `canonical_file_path` are the canonical forms of the package's
    /// manifest directory and of `file_path`.
    pub fn is_selected(
        &self,
        file_path: &str,
        canonical_manifest_dir: &str,
        canonical_file_path: &str,
    ) -> (selected: bool)
        ensures
            selected == file_selected(
                self.package.manifest_dir@,
                self.include_test_targets,
                self.exclude_paths@,
                file_path@,
                canonical_manifest_dir@,
                canonical_file_path@,
            ),
    {
        let relative_file = Self::relative_file(self.package.manifest_dir.as_str(), file_path);
        Self::is_selected_relative_file(relative_file.as_str(), self.include_test_targets)
            && Self::is_selected_source_file(
            canonical_manifest_dir,
            canonical_file_path,
            self.include_test_targets,
        ) && !Self::is_excluded_relative_file(relative_file.as_str(), self.exclude_paths)
    }

    fn checked_file(&self, source_root: &str, file: &ParsedFile) -> (found: Option<
        Vec<SourceFunction>,
    >)
        ensures
            found_as(found, file_found(*self.package, source_root@, *file)),
    {
        let relative_file = Self::relative_file(self.package.manifest_dir.as_str(), file.path.as_str());
        let module_prefix = Self::module_prefix(source_root, file.path.as_str());
        let path_key = normalize_path(file.canonical_path.as_str());
        let no_modules: Vec<String> = Vec::new();
        assert(strings_view(no_modules@) =~= Seq::<Seq<char>>::empty());
        Self::checked_items(
            self.package,
            &file.syntax.items,
            path_key.as_str(),
            relative_file.as_str(),
            module_prefix.as_slice(),
            no_modules.as_slice(),
        )
    }

    /// The functions of one source root, as `process_source_root` finds
    /// them; `None` where a function's complexity does not fit in a `u32`.
    pub fn try_process_source_root(&self, source_root: &str, parsed_files: &[ParsedFile]) -> (found:
        Option<Vec<SourceFunction>>)
        ensures
            found_as(found, root_found(*self.package, source_root@, parsed_files@)),
    {
        let registry = TestModuleRegistry::build(parsed_files);
        let ghost files = parsed_files@;
        let ghost modules = registry.modules();
        let mut all: Vec<SourceFunction> = Vec::new();
        let mut i: usize = 0;
        assert(files.take(0) =~= Seq::<ParsedFile>::empty());
        assert(functions_view(all@) =~= Seq::<FunctionView>::empty());
        while i < parsed_files.len()
            invariant
                files == parsed_files@,
                modules == registry.modules(),
                modules == registered_modules(files),
                i <= files.len(),
                functions_view(all@) == files_found(
                    *self.package,
                    source_root@,
                    files.take(i as int),
                    modules,
                ),
                complexities_fit(
                    files_found(*self.package, source_root@, files.take(i as int), modules),
                ),
            decreases files.len() - i,
        {
            assert(files.take(i + 1).drop_last() =~= files.take(i as int));
            let ghost one = if in_test_module(files[i as int].path@, modules) {
                Seq::<FunctionView>::empty()
            } else {
                file_found(*self.package, source_root@, files[i as int])
            };
            let part = if registry.is_excluded(parsed_files[i].path.as_str()) {
                let none: Vec<SourceFunction> = Vec::new();
                assert(functions_view(none@) =~= Seq::<FunctionView>::empty());
                Some(none)
            } else {
                self.checked_file(source_root, &parsed_files[i])
            };
            proof {
                lemma_fit_concat(
                    files_found(*self.package, source_root@, files.take(i as int), modules),
                    one,
                );
            }
            match part {
                Some(part) => {
                    append_found(&mut all, part);
                },
                None => {
                    proof {
                        if complexities_fit(files_found(*self.package, source_root@, files, modules)) {
                            lemma_files_prefix_fit(
                                *self.package,
                                source_root@,
                                files,
                                modules,
                                i + 1,
                            );
                        }
                    }
                    return None;
                },
            }
            i += 1;
        }
        assert(files.take(files.len() as int) =~= files);
        Some(all)
    }

    /// The functions of one source root, from its selected and parsed files
    /// (none where the root does not exist); files of test-only modules
    /// declared out of line are left out.
    pub fn process_source_root(&self, source_root: &str, parsed_files: &[ParsedFile]) -> (functions:
        Vec<SourceFunction>)
        requires
            complexities_fit(root_found(*self.package, source_root@, parsed_files@)),
        ensures
            functions_view(functions@) == root_found(*self.package, source_root@, parsed_files@),
    {
        match self.try_process_source_root(source_root, parsed_files) {
            Some(functions) => functions,
            None => Vec::new(),
        }
    }

    /// One function, checked for a complexity that fits in a `u32`.
    pub(crate) fn checked_record(
        package: &PackageContext,
        item_fn: &FnItem,
        receiver: Option<&str>,
        path_key: &str,
        relative_file: &str,
        module_prefix: &[String],
        inline_modules: &[String],
    ) -> (found: Option<Vec<SourceFunction>>)
        ensures
            found_as(
                found,
                recorded(
                    *item_fn,
                    receiver_view(receiver),
                    site_of(*package, path_key@, relative_file@, module_prefix@),
                    strings_view(inline_modules@),
                ),
            ),
    {
        if is_test_attrs(item_fn.attrs.as_slice()) {
            let none: Vec<SourceFunction> = Vec::new();
            assert(functions_view(none@) =~= Seq::<FunctionView>::empty());
            return Some(none);
        }
        let complexity = match checked_cognitive_complexity(&item_fn.block) {
            Some(complexity) => complexity,
            None => {
                proof {
                    let found = recorded(
                        *item_fn,
                        receiver_view(receiver),
                        site_of(*package, path_key@, relative_file@, module_prefix@),
                        strings_view(inline_modules@),
                    );
                    assert(found[0].complexity > u32::MAX);
                }
                return None;
            },
        };
        let name = qualified_name(module_prefix, inline_modules, receiver, item_fn.name.as_str());
        let function = SourceFunction {
            package_name: package.name.clone(),
            name,
            path_key: path_key.to_owned(),
            relative_file: relative_file.to_owned(),
            line: item_fn.line,
            end_line: item_fn.end_line,
            complexity,
        };
        let mut one: Vec<SourceFunction> = Vec::new();
        one.push(function);
        assert(functions_view(one@) =~= recorded(
            *item_fn,
            receiver_view(receiver),
            site_of(*package, path_key@, relative_file@, module_prefix@),
            strings_view(inline_modules@),
        ));
        Some(one)
    }

    fn checked_items(
        package: &PackageContext,
        items: &Vec<SourceItem>,
        path_key: &str,
        relative_file: &str,
        module_prefix: &[String],
        inline_modules: &[String],
    ) -> (found: Option<Vec<SourceFunction>>)
        ensures
            found_as(
                found,
                items_found(
                    items@,
                    site_of(*package, path_key@, relative_file@, module_prefix@),
                    strings_view(inline_modules@),
                ),
            ),
        decreases items,
    {
        let ghost s = items@;
        let ghost site = site_of(*package, path_key@, relative_file@, module_prefix@);
        let ghost inline = strings_view(inline_modules@);
        let mut all: Vec<SourceFunction> = Vec::new();
        let mut i: usize = 0;
        assert(s.take(0) =~= Seq::<SourceItem>::empty());
        assert(functions_view(all@) =~= Seq::<FunctionView>::empty());
        while i < items.len()
            invariant
                s == items@,
                site == site_of(*package, path_key@, relative_file@, module_prefix@),
                inline == strings_view(inline_modules@),
                i <= s.len(),
                functions_view(all@) == items_found(s.take(i as int), site, inline),
                complexities_fit(items_found(s.take(i as int), site, inline)),
            decreases s.len() - i,
        {
            assert(decreases_to!(items => s[i as int]));
            assert(s.take(i + 1).drop_last() =~= s.take(i as int));
            let part = Self::checked_item(
                package,
                &items[i],
                path_key,
                relative_file,
                module_prefix,
                inline_modules,
            );
            proof {
                lemma_fit_concat(
                    items_found(s.take(i as int), site, inline),
                    item_found(s[i as int], site, inline),
                );
            }
            match part {
                Some(part) => {
                    append_found(&mut all, part);
                },
                None => {
                    proof {
                        if complexities_fit(items_found(s, site, inline)) {
                            lemma_items_prefix_fit(s, i + 1, site, inline);
                        }
                    }
                    return None;
                },
            }
            i += 1;
        }
        assert(s.take(s.len() as int) =~= s);
        Some(all)
    }

    fn checked_item(
        package: &PackageContext,
        item: &SourceItem,
        path_key: &str,
        relative_file: &str,
        module_prefix: &[String],
        inline_modules: &[String],
    ) -> (found: Option<Vec<SourceFunction>>)
        ensures
            found_as(
                found,
                item_found(
                    *item,
                    site_of(*package, path_key@, relative_file@, module_prefix@),
                    strings_view(inline_modules@),
                ),
            ),
        decreases item,
    {
        let none: Vec<SourceFunction> = Vec::new();
        assert(functions_view(none@) =~= Seq::<FunctionView>::empty());
        match item {
            SourceItem::Fn(item_fn) => Self::checked_record(
                package,
                item_fn,
                None,
                path_key,
                relative_file,
                module_prefix,
                inline_modules,
            ),
            SourceItem::Impl(item_impl) => {
                if is_test_attrs(item_impl.attrs.as_slice()) {
                    Some(none)
                } else {
                    ImplCollector::checked_impl(
                        package,
                        item_impl,
                        path_key,
                        relative_file,
                        module_prefix,
                        inline_modules,
                    )
                }
            },
            SourceItem::Mod(item_mod) => {
                if is_test_attrs(item_mod.attrs.as_slice()) {
                    Some(none)
                } else {
                    match &item_mod.content {
                        Some(items) => {
                            let mut nested = copy_strings(inline_modules);
                            nested.push(item_mod.name.clone());
                            assert(strings_view(nested@) =~= strings_view(inline_modules@).push(
                                item_mod.name@,
                            ));
                            Self::checked_items(
                                package,
                                items,
                                path_key,
                                relative_file,
                                module_prefix,
                                nested.as_slice(),
                            )
                        },
                        None => Some(none),
                    }
                }
            },
            SourceItem::Other => Some(none),
        }
    }

    /// The functions of the top-level items of a parsed file.
    pub fn visit_items(
        package: &PackageContext,
        syntax: &SyntaxFile,
        path_key: &str,
        relative_file: &str,
        module_prefix: &[String],
        inline_modules: &[String],
    ) -> (functions: Vec<SourceFunction>)
        requires
            complexities_fit(
                items_found(
                    syntax.items@,
                    site_of(*package, path_key@, relative_file@, module_prefix@),
                    strings_view(inline_modules@),
                ),
            ),
        ensures
            functions_view(functions@) == items_found(
                syntax.items@,
                site_of(*package, path_key@, relative_file@, module_prefix@),
                strings_view(inline_modules@),
            ),
    {
        match Self::checked_items(
            package,
            &syntax.items,
            path_key,
            relative_file,
            module_prefix,
            inline_modules,
        ) {
            Some(functions) => functions,
            None => Vec::new(),
        }
    }

    /// The functions of one item.
    pub fn visit_item(
        package: &PackageContext,
        item: &SourceItem,
        path_key: &str,
        relative_file: &str,
        module_prefix: &[String],
        inline_modules: &[String],
    ) -> (functions: Vec<SourceFunction>)
        requires
            complexities_fit(
                item_found(
                    *item,
                    site_of(*package, path_key@, relative_file@, module_prefix@),
                    strings_view(inline_modules@),
                ),
            ),
        ensures
            functions_view(functions@) == item_found(
                *item,
                site_of(*package, path_key@, relative_file@, module_prefix@),
                strings_view(inline_modules@),
            ),
    {
        match Self::checked_item(
            package,
            item,
            path_key,
            relative_file,
            module_prefix,
            inline_modules,
        ) {
            Some(functions) => functions,
            None => Vec::new(),
        }
    }

    /// The functions of an inline module, under its name.
    pub fn visit_module(
        package: &PackageContext,
        item_mod: &ModItem,
        path_key: &str,
        relative_file: &str,
        module_prefix: &[String],
        inline_modules: &[String],
    ) -> (functions: Vec<SourceFunction>)
        requires
            complexities_fit(
                module_found(
                    *item_mod,
                    site_of(*package, path_key@, relative_file@, module_prefix@),
                    strings_view(inline_modules@),
                ),
            ),
        ensures
            functions_view(functions@) == module_found(
                *item_mod,
                site_of(*package, path_key@, relative_file@, module_prefix@),
                strings_view(inline_modules@),
            ),
    {
        match &item_mod.content {
            Some(items) => {
                let mut nested = copy_strings(inline_modules);
                nested.push(item_mod.name.clone());
                assert(strings_view(nested@) =~= strings_view(inline_modules@).push(
                    item_mod.name@,
                ));
                match Self::checked_items(
                    package,
                    items,
                    path_key,
                    relative_file,
                    module_prefix,
                    nested.as_slice(),
                ) {
                    Some(functions) => functions,
                    None => Vec::new(),
                }
            },
            None => {
                let none: Vec<SourceFunction> = Vec::new();
                assert(functions_view(none@) =~= Seq::<FunctionView>::empty());
                none
            },
        }
    }

    /// One function, unless it is test-only.
    pub fn record_function(
        package: &PackageContext,
        item_fn: &FnItem,
        receiver: Option<&str>,
        path_key: &str,
        relative_file: &str,
        module_prefix: &[String],
        inline_modules: &[String],
    ) -> (function: Option<SourceFunction>)
        requires
            complexities_fit(
                recorded(
                    *item_fn,
                    receiver_view(receiver),
                    site_of(*package, path_key@, relative_file@, module_prefix@),
                    strings_view(inline_modules@),
                ),
            ),
        ensures
            recorded(
                *item_fn,
                receiver_view(receiver),
                site_of(*package, path_key@, relative_file@, module_prefix@),
                strings_view(inline_modules@),
            ) == match function {
                Some(f) => seq![f@],
                None => Seq::<FunctionView>::empty(),
            },
    {
        match Self::checked_record(
            package,
            item_fn,
            receiver,
            path_key,
            relative_file,
            module_prefix,
            inline_modules,
        ) {
            Some(mut found) => {
                if found.len() == 0 {
                    None
                } else {
                    let ghost v = found@;
                    let f = found.remove(0);
                    assert(functions_view(v) =~= seq![f@]);
                    Some(f)
                }
            },
            None => None,
        }
    }
    /// `file_path` relative to `base_dir`, with forward slashes.
    pub fn relative_file(base_dir: &str, file_path: &str) -> (relative: String)
        ensures
            relative@ == relative_file_spec(base_dir@, file_path@),
            path_strip_prefix(file_path@, base_dir@) matches Some(rest) && !rest.contains('\\')
                ==> path_components(path_join(base_dir@, relative@)) == path_components(
                file_path@,
            ),
    {
        match strip_path_prefix(file_path, base_dir) {
            Some(rest) => {
                let relative = replace_char(rest.as_str(), '\\', '/');
                proof {
                    if !rest@.contains('\\') {
                        assert forall|i: int| 0 <= i < rest@.len() implies rest@[i] != '\\' by {
                            if rest@[i] == '\\' {
                                assert(rest@.contains('\\'));
                            }
                        }
                        assert(relative@ =~= rest@);
                    }
                }
                relative
            },
            None => replace_char(file_path, '\\', '/'),
        }
    }

    /// Whether a file belongs to the analysis by where it stands below the
    /// package's manifest directory; both paths as canonicalised by the caller.
    pub fn is_selected_source_file(
        canonical_base_dir: &str,
        canonical_file_path: &str,
        include_test_targets: bool,
    ) -> (selected: bool)
        ensures
            selected == source_file_selected(
                canonical_base_dir@,
                canonical_file_path@,
                include_test_targets,
            ),
    {
        let base = chars_of(normalize_path(canonical_base_dir).as_str());
        let file = chars_of(normalize_path(canonical_file_path).as_str());
        let ghost b = slashed(canonical_base_dir@);
        let ghost f = slashed(canonical_file_path@);
        if base.len() > file.len() {
            return true;
        }
        let mut i: usize = 0;
        while i < base.len()
            invariant
                base@ == b,
                file@ == f,
                b == slashed(canonical_base_dir@),
                f == slashed(canonical_file_path@),
                b.len() <= f.len(),
                i <= b.len(),
                forall|t: int| 0 <= t < i ==> b[t] == f[t],
            decreases b.len() - i,
        {
            if base[i] != file[i] {
                assert(f.take(b.len() as int)[i as int] != b[i as int]);
                assert(f.take(b.len() as int) != b);
                assert(!has_prefix(f, b));
                return true;
            }
            i += 1;
        }
        assert(f.take(b.len() as int) =~= b);
        let ghost rest = f.skip(b.len() as int);
        let start: usize = if file.len() > base.len() && file[base.len()] == '/' {
            base.len() + 1
        } else {
            base.len()
        };
        let mut relative: Vec<char> = Vec::new();
        let mut j: usize = start;
        while j < file.len()
            invariant
                file@ == f,
                start <= j <= f.len(),
                relative@ == f.subrange(start as int, j as int),
            decreases f.len() - j,
        {
            relative.push(file[j]);
            j += 1;
        }
        let ghost rel = relative@;
        assert(rel =~= (if rest.len() > 0 && rest[0] == '/' {
            rest.skip(1)
        } else {
            rest
        }));
        let cut = first_slash(relative.as_slice());
        let mut first: Vec<char> = Vec::new();
        let mut k: usize = 0;
        while k < cut
            invariant
                relative@ == rel,
                cut <= rel.len(),
                k <= cut,
                first@ == rel.take(k as int),
            decreases cut - k,
        {
            first.push(relative[k]);
            assert(rel.take(k + 1) =~= rel.take(k as int).push(rel[k as int]));
            k += 1;
        }
        let examples = chars_of("examples");
        let benches = chars_of("benches");
        let tests = chars_of("tests");
        if chars_eq(first.as_slice(), examples.as_slice()) || chars_eq(
            first.as_slice(),
            benches.as_slice(),
        ) {
            return false;
        }
        if chars_eq(first.as_slice(), tests.as_slice()) {
            return include_test_targets;
        }
        let relative_text = string_from_chars(relative.as_slice());
        !ends_with(relative_text.as_str(), "/build.rs") && !str_eq(
            relative_text.as_str(),
            "build.rs",
        )
    }

    /// Whether any `--exclude-path` entry excludes the relative file.
    pub fn is_excluded_relative_file(relative_file: &str, exclude_paths: &[String]) -> (excluded:
        bool)
        ensures
            excluded == excluded_by_any(relative_file@, exclude_paths@),
    {
        let mut i: usize = 0;
        while i < exclude_paths.len()
            invariant
                i <= exclude_paths@.len(),
                forall|t: int|
                    0 <= t < i ==> !excluded_by(relative_file@, #[trigger] exclude_paths@[t]@),
            decreases exclude_paths@.len() - i,
        {
            let normalised = replace_char(exclude_paths[i].as_str(), '\\', '/');
            let mut with_slash = chars_of(normalised.as_str());
            let n = with_slash.len();
            if !(n > 0 && with_slash[n - 1] == '/') {
                with_slash.push('/');
            }
            let with_slash_text = string_from_chars(with_slash.as_slice());
            if starts_with(relative_file, with_slash_text.as_str()) || str_eq(
                relative_file,
                normalised.as_str(),
            ) {
                return true;
            }
            i += 1;
        }
        false
    }

    /// Whether a relative file belongs to the analysis by its own path.
    pub fn is_selected_relative_file(relative_file: &str, include_test_targets: bool) -> (selected:
        bool)
        ensures
            selected == relative_file_selected(relative_file@, include_test_targets),
    {
        !starts_with(relative_file, "examples/") && !starts_with(relative_file, "benches/")
            && !str_eq(relative_file, "build.rs") && (include_test_targets || !starts_with(
            relative_file,
            "tests/",
        ))
    }

    /// The module path of a file below its source root.
    pub fn module_prefix(source_root: &str, file_path: &str) -> (prefix: Vec<String>)
        ensures
            strings_view(prefix@) == module_prefix_spec(source_root@, file_path@),
    {
        let relative = match strip_path_prefix(file_path, source_root) {
            Some(rest) => rest,
            None => file_path.to_owned(),
        };
        let mut prefix = match parent_path(relative.as_str()) {
            Some(parent) => components_of(parent.as_str()),
            None => Vec::new(),
        };
        let stem = match file_stem_of(file_path) {
            Some(stem) => stem,
            None => String::new(),
        };
        if !(str_eq(stem.as_str(), "lib") || str_eq(stem.as_str(), "main") || str_eq(
            stem.as_str(),
            "mod",
        )) {
            let ghost before = prefix@;
            prefix.push(stem);
            assert(strings_view(prefix@) =~= strings_view(before).push(stem@));
        }
        assert(strings_view(prefix@) =~= module_prefix_spec(source_root@, file_path@));
        prefix
    }
}

} // verus!
