//! The directories whose source files a package's analysis walks.
use vstd::prelude::*;

use crate::path_order::{
    components_less, components_lt, lemma_components_lt_total, lemma_components_lt_transitive,
    path_lt, path_same,
};
use crate::paths::{
    components_of, extension_of, join_path, option_view, parent_path, path_components,
    path_extension, path_join, path_parent, strings_view,
};
use crate::text::{chars_eq, chars_of, str_eq};

verus! {

/// A build target of a package: its kinds (`lib`, `bin`, `test`,
/// `custom-build`, ...) and the path of its root source file.
#[derive(Debug, Clone)]
pub struct TargetInfo {
    pub kinds: Vec<String>,
    pub src_path: String,
}

/// Whether a target has the given kind.
pub open spec fn has_kind(kinds: Seq<String>, kind: Seq<char>) -> bool {
    exists|i: int| 0 <= i < kinds.len() && (#[trigger] kinds[i])@ == kind
}

/// Whether a target has a kind that ships code: a library or binary of
/// some sort.
pub open spec fn has_shipped_kind(kinds: Seq<String>) -> bool {
    ||| has_kind(kinds, "lib"@)
    ||| has_kind(kinds, "bin"@)
    ||| has_kind(kinds, "proc-macro"@)
    ||| has_kind(kinds, "rlib"@)
    ||| has_kind(kinds, "dylib"@)
    ||| has_kind(kinds, "cdylib"@)
    ||| has_kind(kinds, "staticlib"@)
}

/// Whether a target's sources are analysed: never a build script; with test
/// targets, any shipped or test target; without them, a shipped target that
/// is no test, bench or example.
pub open spec fn target_selected(kinds: Seq<String>, include_test_targets: bool) -> bool {
    if has_kind(kinds, "custom-build"@) {
        false
    } else if include_test_targets {
        has_shipped_kind(kinds) || has_kind(kinds, "test"@)
    } else if has_kind(kinds, "test"@) || has_kind(kinds, "bench"@) || has_kind(
        kinds,
        "example"@,
    ) {
        false
    } else {
        has_shipped_kind(kinds)
    }
}

/// Whether the paths of a sequence are in strictly increasing path order.
pub open spec fn paths_sorted(roots: Seq<Seq<char>>) -> bool {
    forall|i: int, j: int| 0 <= i < j < roots.len() ==> path_lt(#[trigger] roots[i], #[trigger] roots[j])
}

/// How many of the paths sort before `p`.
pub open spec fn count_before(roots: Seq<Seq<char>>, p: Seq<char>) -> nat
    decreases roots.len(),
{
    if roots.len() == 0 {
        0
    } else {
        count_before(roots.drop_last(), p) + if path_lt(roots.last(), p) {
            1nat
        } else {
            0nat
        }
    }
}

/// A sorted set of paths with `p` added: unchanged where it holds the same
/// path already, else `p` placed where it keeps the order.
pub open spec fn sorted_insert(roots: Seq<Seq<char>>, p: Seq<char>) -> Seq<Seq<char>> {
    if exists|i: int| 0 <= i < roots.len() && path_same(#[trigger] roots[i], p) {
        roots
    } else {
        roots.insert(count_before(roots, p) as int, p)
    }
}

/// The source root a target contributes: the directory of its root source
/// file, for a selected target whose root is a `.rs` file.
pub open spec fn target_root(target: TargetInfo, include_test_targets: bool) -> Option<Seq<char>> {
    if target_selected(target.kinds@, include_test_targets) && path_extension(target.src_path@)
        == Some("rs"@) {
        path_parent(target.src_path@)
    } else {
        None
    }
}

/// The roots after the targets are processed in order.
pub open spec fn roots_after(
    roots: Seq<Seq<char>>,
    targets: Seq<TargetInfo>,
    include_test_targets: bool,
) -> Seq<Seq<char>>
    decreases targets.len(),
{
    if targets.len() == 0 {
        roots
    } else {
        let before = roots_after(roots, targets.drop_last(), include_test_targets);
        match target_root(targets.last(), include_test_targets) {
            Some(p) => sorted_insert(before, p),
            None => before,
        }
    }
}

/// Whether the sequence holds `p`, as the same path.
pub open spec fn holds_path(roots: Seq<Seq<char>>, p: Seq<char>) -> bool {
    exists|i: int| 0 <= i < roots.len() && path_same(#[trigger] roots[i], p)
}

/// Whether some target contributes `p`, as the same path, as a source root.
pub open spec fn contributes(targets: Seq<TargetInfo>, include_test_targets: bool, p: Seq<char>) -> bool {
    exists|t: int|
        0 <= t < targets.len() && (#[trigger] target_root(targets[t], include_test_targets) matches Some(
            q,
        ) && path_same(q, p))
}

proof fn lemma_count_before_bound(roots: Seq<Seq<char>>, p: Seq<char>)
    ensures
        count_before(roots, p) <= roots.len(),
    decreases roots.len(),
{
    if roots.len() > 0 {
        lemma_count_before_bound(roots.drop_last(), p);
    }
}

proof fn lemma_sorted_insert_holds(roots: Seq<Seq<char>>, q: Seq<char>, p: Seq<char>)
    ensures
        holds_path(sorted_insert(roots, q), p) <==> holds_path(roots, p) || path_same(q, p),
{
    if exists|i: int| 0 <= i < roots.len() && path_same(#[trigger] roots[i], q) {
        let i = choose|i: int| 0 <= i < roots.len() && path_same(#[trigger] roots[i], q);
        if path_same(q, p) {
            assert(path_same(roots[i], p));
        }
    } else {
        lemma_count_before_bound(roots, q);
        let k = count_before(roots, q) as int;
        let r = roots.insert(k, q);
        assert(r[k] == q);
        if holds_path(roots, p) {
            let i = choose|i: int| 0 <= i < roots.len() && path_same(#[trigger] roots[i], p);
            if i < k {
                assert(r[i] == roots[i]);
            } else {
                assert(r[i + 1] == roots[i]);
            }
        }
        if holds_path(r, p) {
            let j = choose|j: int| 0 <= j < r.len() && path_same(#[trigger] r[j], p);
            if j < k {
                assert(r[j] == roots[j]);
            } else if j > k {
                assert(r[j] == roots[j - 1]);
            }
        }
    }
}

/// The roots after processing targets hold, as the same path, exactly the
/// roots held before and those the selected targets contribute: a root is
/// kept once, whichever targets contribute it.
pub proof fn law_roots_are_the_contributed_roots(
    roots: Seq<Seq<char>>,
    targets: Seq<TargetInfo>,
    include_test_targets: bool,
    p: Seq<char>,
)
    ensures
        holds_path(roots_after(roots, targets, include_test_targets), p) <==> holds_path(roots, p)
            || contributes(targets, include_test_targets, p),
    decreases targets.len(),
{
    if targets.len() > 0 {
        let before = targets.drop_last();
        law_roots_are_the_contributed_roots(roots, before, include_test_targets, p);
        let prior = roots_after(roots, before, include_test_targets);
        match target_root(targets.last(), include_test_targets) {
            Some(q) => lemma_sorted_insert_holds(prior, q, p),
            None => {},
        }
        if contributes(before, include_test_targets, p) {
            let t = choose|t: int|
                0 <= t < before.len() && (#[trigger] target_root(before[t], include_test_targets) matches Some(
                    q,
                ) && path_same(q, p));
            assert(targets[t] == before[t]);
        }
        if contributes(targets, include_test_targets, p) {
            let t = choose|t: int|
                0 <= t < targets.len() && (#[trigger] target_root(targets[t], include_test_targets) matches Some(
                    q,
                ) && path_same(q, p));
            if t < targets.len() - 1 {
                assert(before[t] == targets[t]);
            }
        }
    }
}

/// Including test targets only adds targets: every target analysed without
/// them is analysed with them, and with them a test target is analysed too,
/// while build scripts never are.
pub proof fn law_test_targets_only_add(kinds: Seq<String>)
    ensures
        target_selected(kinds, false) ==> target_selected(kinds, true),
        has_kind(kinds, "test"@) && !has_kind(kinds, "custom-build"@) ==> target_selected(kinds, true),
        has_kind(kinds, "custom-build"@) ==> !target_selected(kinds, true) && !target_selected(
            kinds,
            false,
        ),
{
}

/// Collects the source roots of a package's targets, as a sorted set of
/// paths.
pub struct SourceRootCollector {
    include_test_targets: bool,
    manifest_dir: String,
    source_roots: Vec<String>,
}

impl SourceRootCollector {
    #[verifier::type_invariant]
    spec fn well_formed(self) -> bool {
        paths_sorted(strings_view(self.source_roots@))
    }

    /// The roots collected so far, in path order.
    pub closed spec fn roots(self) -> Seq<Seq<char>> {
        strings_view(self.source_roots@)
    }

    /// Whether test targets are analysed.
    pub closed spec fn includes_test_targets(self) -> bool {
        self.include_test_targets
    }

    /// The package's manifest directory.
    pub closed spec fn manifest_dir_view(self) -> Seq<char> {
        self.manifest_dir@
    }

    /// A collector with no roots yet.
    pub fn new(include_test_targets: bool, manifest_dir: &str) -> (collector: Self)
        ensures
            collector.roots() == Seq::<Seq<char>>::empty(),
            collector.includes_test_targets() == include_test_targets,
            collector.manifest_dir_view() == manifest_dir@,
    {
        let collector = SourceRootCollector {
            include_test_targets,
            manifest_dir: manifest_dir.to_owned(),
            source_roots: Vec::new(),
        };
        assert(strings_view(collector.source_roots@) =~= Seq::<Seq<char>>::empty());
        collector
    }

    /// Processes the targets in order.
    pub fn collect(&mut self, targets: &[TargetInfo])
        ensures
            final(self).roots() == roots_after(
                old(self).roots(),
                targets@,
                old(self).includes_test_targets(),
            ),
            final(self).includes_test_targets() == old(self).includes_test_targets(),
            final(self).manifest_dir_view() == old(self).manifest_dir_view(),
    {
        let ghost start = self.roots();
        let mut i: usize = 0;
        while i < targets.len()
            invariant
                i <= targets@.len(),
                self.includes_test_targets() == old(self).includes_test_targets(),
                self.manifest_dir_view() == old(self).manifest_dir_view(),
                start == old(self).roots(),
                self.roots() == roots_after(
                    start,
                    targets@.take(i as int),
                    self.includes_test_targets(),
                ),
            decreases targets@.len() - i,
        {
            assert(targets@.take(i + 1).drop_last() =~= targets@.take(i as int));
            self.process_target(&targets[i]);
            i += 1;
        }
        assert(targets@.take(targets@.len() as int) =~= targets@);
    }

    /// Adds the root that a target contributes, if any.
    pub fn process_target(&mut self, target: &TargetInfo)
        ensures
            final(self).roots() == match target_root(*target, old(self).includes_test_targets()) {
                Some(p) => sorted_insert(old(self).roots(), p),
                None => old(self).roots(),
            },
            final(self).includes_test_targets() == old(self).includes_test_targets(),
            final(self).manifest_dir_view() == old(self).manifest_dir_view(),
    {
        if !Self::is_selected_target(target, self.include_test_targets) {
            return;
        }
        let is_rs = match extension_of(target.src_path.as_str()) {
            Some(extension) => str_eq(extension.as_str(), "rs"),
            None => false,
        };
        if !is_rs {
            return;
        }
        match parent_path(target.src_path.as_str()) {
            Some(parent) => self.insert_root(parent),
            None => {},
        }
    }

    /// The components of a path, each as characters.
    fn components_chars(path: &str) -> (components: Vec<Vec<char>>)
        ensures
            components@.map_values(|c: Vec<char>| c@) == path_components(path@),
    {
        let texts = components_of(path);
        let mut components: Vec<Vec<char>> = Vec::new();
        let mut i: usize = 0;
        while i < texts.len()
            invariant
                i <= texts@.len(),
                strings_view(texts@) == path_components(path@),
                components@.map_values(|c: Vec<char>| c@) == strings_view(texts@).take(i as int),
            decreases texts@.len() - i,
        {
            let ghost before = components@;
            let c = chars_of(texts[i].as_str());
            assert(c@ == strings_view(texts@)[i as int]);
            components.push(c);
            assert(components@.map_values(|c: Vec<char>| c@) =~= before.map_values(
                |c: Vec<char>| c@,
            ).push(c@));
            assert(strings_view(texts@).take(i + 1) =~= strings_view(texts@).take(i as int).push(
                c@,
            ));
            i += 1;
        }
        assert(strings_view(texts@).take(texts@.len() as int) =~= strings_view(texts@));
        components
    }

    /// Whether two component sequences are equal.
    fn components_equal(a: &Vec<Vec<char>>, b: &Vec<Vec<char>>) -> (equal: bool)
        ensures
            equal == (a@.map_values(|c: Vec<char>| c@) == b@.map_values(|c: Vec<char>| c@)),
    {
        let ghost av = a@.map_values(|c: Vec<char>| c@);
        let ghost bv = b@.map_values(|c: Vec<char>| c@);
        if a.len() != b.len() {
            assert(av.len() != bv.len());
            return false;
        }
        let mut i: usize = 0;
        while i < a.len()
            invariant
                a@.len() == b@.len(),
                av == a@.map_values(|c: Vec<char>| c@),
                bv == b@.map_values(|c: Vec<char>| c@),
                i <= a@.len(),
                forall|t: int| 0 <= t < i ==> av[t] == bv[t],
            decreases a@.len() - i,
        {
            if !chars_eq(a[i].as_slice(), b[i].as_slice()) {
                assert(av[i as int] != bv[i as int]);
                return false;
            }
            i += 1;
        }
        assert(av =~= bv);
        true
    }

    /// Adds a root to the sorted set.
    fn insert_root(&mut self, root: String)
        ensures
            final(self).roots() == sorted_insert(old(self).roots(), root@),
            final(self).includes_test_targets() == old(self).includes_test_targets(),
            final(self).manifest_dir_view() == old(self).manifest_dir_view(),
    {
        proof {
            use_type_invariant(&*self);
        }
        let ghost roots = self.roots();
        let ghost p = root@;
        let new_components = Self::components_chars(root.as_str());
        let mut i: usize = 0;
        let mut same = false;
        while i < self.source_roots.len()
            invariant_except_break
                !same,
            invariant
                roots == strings_view(self.source_roots@),
                paths_sorted(roots),
                new_components@.map_values(|c: Vec<char>| c@) == path_components(p),
                i <= roots.len(),
                forall|t: int| 0 <= t < i ==> path_lt(#[trigger] roots[t], p),
                count_before(roots.take(i as int), p) == i,
            ensures
                same ==> i < roots.len() && path_same(roots[i as int], p),
                !same ==> (i == roots.len() || path_lt(p, roots[i as int])),
            decreases roots.len() - i,
        {
            let existing = Self::components_chars(self.source_roots[i].as_str());
            assert(roots[i as int] == self.source_roots@[i as int]@);
            if components_less(&existing, &new_components) {
                assert(roots.take(i + 1).drop_last() =~= roots.take(i as int));
                i += 1;
            } else {
                proof {
                    lemma_components_lt_total(path_components(roots[i as int]), path_components(p));
                }
                if Self::components_equal(&existing, &new_components) {
                    same = true;
                }
                break;
            }
        }
        proof {
            if i < roots.len() {
                lemma_components_lt_total(path_components(roots[i as int]), path_components(p));
            }
            self.lemma_count_rest(roots, p, i as int);
        }
        if same {
            assert(exists|t: int| 0 <= t < roots.len() && path_same(#[trigger] roots[t], p));
            return;
        }
        assert forall|t: int| i <= t < roots.len() implies path_lt(p, #[trigger] roots[t]) by {
            if t > i {
                lemma_components_lt_transitive(
                    path_components(p),
                    path_components(roots[i as int]),
                    path_components(roots[t]),
                );
            }
        }
        assert forall|t: int| 0 <= t < roots.len() implies !path_same(#[trigger] roots[t], p) by {
            lemma_components_lt_total(path_components(roots[t]), path_components(p));
        }
        let mut updated: Vec<String> = Vec::new();
        std::mem::swap(&mut updated, &mut self.source_roots);
        updated.insert(i, root);
        proof {
            assert(strings_view(updated@) =~= roots.insert(i as int, p));
            let after = roots.insert(i as int, p);
            assert forall|a: int, b: int| 0 <= a < b < after.len() implies path_lt(
                #[trigger] after[a],
                #[trigger] after[b],
            ) by {
                if a < i && b > i {
                    assert(after[b] == roots[b - 1]);
                    lemma_components_lt_transitive(
                        path_components(after[a]),
                        path_components(p),
                        path_components(after[b]),
                    );
                } else if a == i {
                    assert(after[b] == roots[b - 1]);
                } else if a > i {
                    assert(after[a] == roots[a - 1]);
                    assert(after[b] == roots[b - 1]);
                } else {
                    assert(after[a] == roots[a]);
                }
            }
        }
        self.source_roots = updated;
    }

    /// Once the paths before `p` are counted, the rest add nothing.
    proof fn lemma_count_rest(self, roots: Seq<Seq<char>>, p: Seq<char>, i: int)
        requires
            paths_sorted(roots),
            0 <= i <= roots.len(),
            count_before(roots.take(i), p) == i,
            i == roots.len() || !path_lt(roots[i], p),
        ensures
            count_before(roots, p) == i,
        decreases roots.len(),
    {
        if roots.len() > i {
            assert forall|t: int| i <= t < roots.len() implies !path_lt(#[trigger] roots[t], p) by {
                if t > i && path_lt(roots[t], p) {
                    lemma_components_lt_transitive(
                        path_components(roots[i]),
                        path_components(roots[t]),
                        path_components(p),
                    );
                }
            }
            assert(roots.drop_last().take(i) =~= roots.take(i));
            self.lemma_count_rest(roots.drop_last(), p, i);
        } else {
            assert(roots.take(i) =~= roots);
        }
    }

    /// Whether a target's sources are analysed.
    pub fn is_selected_target(target: &TargetInfo, include_test_targets: bool) -> (selected: bool)
        ensures
            selected == target_selected(target.kinds@, include_test_targets),
    {
        let kinds = &target.kinds;
        if Self::has_kind(kinds, "custom-build") {
            return false;
        }
        if include_test_targets {
            return Self::has_shipped_kind(kinds) || Self::has_kind(kinds, "test");
        }
        if Self::has_kind(kinds, "test") || Self::has_kind(kinds, "bench") || Self::has_kind(
            kinds,
            "example",
        ) {
            return false;
        }
        Self::has_shipped_kind(kinds)
    }

    fn has_kind(kinds: &Vec<String>, kind: &str) -> (found: bool)
        ensures
            found == has_kind(kinds@, kind@),
    {
        let mut i: usize = 0;
        while i < kinds.len()
            invariant
                i <= kinds@.len(),
                forall|t: int| 0 <= t < i ==> (#[trigger] kinds@[t])@ != kind@,
            decreases kinds@.len() - i,
        {
            if str_eq(kinds[i].as_str(), kind) {
                return true;
            }
            i += 1;
        }
        false
    }

    fn has_shipped_kind(kinds: &Vec<String>) -> (found: bool)
        ensures
            found == has_shipped_kind(kinds@),
    {
        Self::has_kind(kinds, "lib") || Self::has_kind(kinds, "bin") || Self::has_kind(
            kinds,
            "proc-macro",
        ) || Self::has_kind(kinds, "rlib") || Self::has_kind(kinds, "dylib") || Self::has_kind(
            kinds,
            "cdylib",
        ) || Self::has_kind(kinds, "staticlib")
    }

    /// The collected roots in strictly ascending path order, each once, or
    /// `<manifest_dir>/src` where no target contributed one.
    pub fn finalize(self) -> (roots: Vec<String>)
        ensures
            strings_view(roots@) == if self.roots().len() == 0 {
                seq![path_join(self.manifest_dir_view(), "src"@)]
            } else {
                self.roots()
            },
            paths_sorted(strings_view(roots@)),
    {
        proof {
            use_type_invariant(&self);
        }
        if self.source_roots.len() == 0 {
            let default_root = join_path(self.manifest_dir.as_str(), "src");
            let mut roots = Vec::new();
            roots.push(default_root);
            assert(strings_view(roots@) =~= seq![path_join(self.manifest_dir@, "src"@)]);
            roots
        } else {
            self.source_roots
        }
    }
}

} // verus!
