//! Test attributes, qualified names, and the methods of `impl` blocks.
use vstd::prelude::*;

use crate::paths::strings_view;
use crate::file_walker::{recorded, site_of, FileWalker, Site};
use crate::package_context::PackageContext;
use crate::source_function::{
    append_found, complexities_fit, found_as, functions_view, lemma_fit_concat, FunctionView,
    SourceFunction,
};
use crate::syntax::{Attr, ImplBlock, ImplMember};
use crate::text::{join_strings, joined, str_eq};

verus! {

/// Whether an attribute marks test-only code: `#[test]` or `#[cfg(test)]`.
pub open spec fn is_test_attr(a: Attr) -> bool {
    strings_view(a.path@) == seq!["test"@] || (strings_view(a.path@) == seq!["cfg"@]
        && a.arguments@ == "test"@)
}

/// Whether an attribute's path is the single segment `name`.
fn path_is(path: &Vec<String>, name: &str) -> (is: bool)
    ensures
        is == (strings_view(path@) == seq![name@]),
{
    if path.len() != 1 {
        proof {
            if strings_view(path@) == seq![name@] {
                assert(strings_view(path@).len() == 1);
            }
        }
        return false;
    }
    let same = str_eq(path[0].as_str(), name);
    proof {
        if same {
            assert(strings_view(path@) =~= seq![name@]);
        } else if strings_view(path@) == seq![name@] {
            assert(strings_view(path@)[0] == path@[0]@);
        }
    }
    same
}

/// Whether any of the attributes marks test-only code.
pub open spec fn has_test_attr(attrs: Seq<Attr>) -> bool {
    exists|i: int| 0 <= i < attrs.len() && is_test_attr(#[trigger] attrs[i])
}

/// Whether any of the attributes marks test-only code.
pub fn is_test_attrs(attrs: &[Attr]) -> (test_only: bool)
    ensures
        test_only == has_test_attr(attrs@),
{
    let mut i: usize = 0;
    while i < attrs.len()
        invariant
            i <= attrs@.len(),
            forall|t: int| 0 <= t < i ==> !is_test_attr(#[trigger] attrs@[t]),
        decreases attrs@.len() - i,
    {
        let attr = &attrs[i];
        if path_is(&attr.path, "test") || (path_is(&attr.path, "cfg") && str_eq(
            attr.arguments.as_str(),
            "test",
        )) {
            assert(is_test_attr(attrs@[i as int]));
            return true;
        }
        i += 1;
    }
    false
}

/// The segments of a function's qualified name: the file's module path, the
/// inline modules around it, the type of its `impl` block, and its own name.
pub open spec fn name_segments(
    module_prefix: Seq<Seq<char>>,
    inline_modules: Seq<Seq<char>>,
    receiver: Option<Seq<char>>,
    name: Seq<char>,
) -> Seq<Seq<char>> {
    module_prefix + inline_modules + match receiver {
        Some(r) => seq![r],
        None => Seq::empty(),
    } + seq![name]
}

/// A function's qualified name: its segments joined by `::`.
pub open spec fn qualified(
    module_prefix: Seq<Seq<char>>,
    inline_modules: Seq<Seq<char>>,
    receiver: Option<Seq<char>>,
    name: Seq<char>,
) -> Seq<char> {
    joined(name_segments(module_prefix, inline_modules, receiver, name), "::"@)
}

/// The strings of a slice, copied.
pub fn copy_strings(strings: &[String]) -> (copy: Vec<String>)
    ensures
        copy@ == strings@,
{
    let mut copy: Vec<String> = Vec::new();
    let mut i: usize = 0;
    while i < strings.len()
        invariant
            i <= strings@.len(),
            copy@ == strings@.take(i as int),
        decreases strings@.len() - i,
    {
        copy.push(strings[i].clone());
        assert(strings@.take(i + 1) =~= strings@.take(i as int).push(strings@[i as int]));
        i += 1;
    }
    assert(strings@.take(strings@.len() as int) =~= strings@);
    copy
}

/// The characters of an optional receiver name.
pub open spec fn receiver_view(receiver: Option<&str>) -> Option<Seq<char>> {
    match receiver {
        Some(r) => Some(r@),
        None => None,
    }
}

/// A function's qualified name.
pub fn qualified_name(
    module_prefix: &[String],
    inline_modules: &[String],
    receiver: Option<&str>,
    name: &str,
) -> (qualified_text: String)
    ensures
        qualified_text@ == qualified(
            strings_view(module_prefix@),
            strings_view(inline_modules@),
            receiver_view(receiver),
            name@,
        ),
{
    let mut segments = copy_strings(module_prefix);
    let mut inline = copy_strings(inline_modules);
    let ghost first = segments@;
    let ghost second = inline@;
    segments.append(&mut inline);
    let ghost before_receiver = segments@;
    match receiver {
        Some(r) => {
            segments.push(r.to_owned());
        },
        None => {},
    }
    let ghost before_name = segments@;
    segments.push(name.to_owned());
    let ghost r_view = receiver_view(receiver);
    assert(strings_view(segments@) =~= name_segments(
        strings_view(module_prefix@),
        strings_view(inline_modules@),
        r_view,
        name@,
    ));
    join_strings(segments.as_slice(), "::")
}

/// The functions found among the members of an `impl` block of `receiver`.
pub open spec fn members_found(
    members: Seq<ImplMember>,
    receiver: Seq<char>,
    site: Site,
    inline_modules: Seq<Seq<char>>,
) -> Seq<FunctionView>
    decreases members.len(),
{
    if members.len() == 0 {
        Seq::empty()
    } else {
        members_found(members.drop_last(), receiver, site, inline_modules) + match members.last() {
            ImplMember::Fn(f) => recorded(f, Some(receiver), site, inline_modules),
            ImplMember::Other => Seq::empty(),
        }
    }
}

/// The name of a self type: the last segment of its path.
pub open spec fn self_type_name(segments: Seq<String>) -> Seq<char> {
    if segments.len() == 0 {
        Seq::empty()
    } else {
        segments.last()@
    }
}

/// The name of a self type: the last segment of its path.
pub fn last_segment(segments: &Vec<String>) -> (name: &str)
    ensures
        name@ == self_type_name(segments@),
{
    if segments.len() == 0 {
        proof {
            reveal_strlit("");
        }
        ""
    } else {
        segments[segments.len() - 1].as_str()
    }
}

/// The methods found in an `impl` block, named after its self type.
pub open spec fn impl_found(i: ImplBlock, site: Site, inline_modules: Seq<Seq<char>>) -> Seq<
    FunctionView,
> {
    members_found(i.members@, self_type_name(i.self_type@), site, inline_modules)
}

proof fn lemma_members_prefix_fit(
    members: Seq<ImplMember>,
    k: int,
    receiver: Seq<char>,
    site: Site,
    inline_modules: Seq<Seq<char>>,
)
    requires
        0 <= k <= members.len(),
        complexities_fit(members_found(members, receiver, site, inline_modules)),
    ensures
        complexities_fit(members_found(members.take(k), receiver, site, inline_modules)),
    decreases members.len(),
{
    if k < members.len() {
        lemma_fit_concat(
            members_found(members.drop_last(), receiver, site, inline_modules),
            match members.last() {
                ImplMember::Fn(f) => recorded(f, Some(receiver), site, inline_modules),
                ImplMember::Other => Seq::empty(),
            },
        );
        assert(members.drop_last().take(k) =~= members.take(k));
        lemma_members_prefix_fit(members.drop_last(), k, receiver, site, inline_modules);
    } else {
        assert(members.take(k) =~= members);
    }
}

/// Collects the methods of `impl` blocks.
pub struct ImplCollector;

impl ImplCollector {
    /// The methods of an `impl` block, checked for complexities that fit in
    /// a `u32`.
    pub(crate) fn checked_impl(
        package: &PackageContext,
        item_impl: &ImplBlock,
        path_key: &str,
        relative_file: &str,
        module_prefix: &[String],
        inline_modules: &[String],
    ) -> (found: Option<Vec<SourceFunction>>)
        ensures
            found_as(
                found,
                impl_found(
                    *item_impl,
                    site_of(*package, path_key@, relative_file@, module_prefix@),
                    strings_view(inline_modules@),
                ),
            ),
    {
        let ghost s = item_impl.members@;
        let receiver_name = last_segment(&item_impl.self_type);
        let ghost receiver = self_type_name(item_impl.self_type@);
        let ghost site = site_of(*package, path_key@, relative_file@, module_prefix@);
        let ghost inline = strings_view(inline_modules@);
        let mut all: Vec<SourceFunction> = Vec::new();
        let mut i: usize = 0;
        assert(s.take(0) =~= Seq::<ImplMember>::empty());
        assert(functions_view(all@) =~= Seq::<FunctionView>::empty());
        while i < item_impl.members.len()
            invariant
                s == item_impl.members@,
                receiver == self_type_name(item_impl.self_type@),
                receiver_name@ == receiver,
                site == site_of(*package, path_key@, relative_file@, module_prefix@),
                inline == strings_view(inline_modules@),
                i <= s.len(),
                functions_view(all@) == members_found(s.take(i as int), receiver, site, inline),
                complexities_fit(members_found(s.take(i as int), receiver, site, inline)),
            decreases s.len() - i,
        {
            assert(s.take(i + 1).drop_last() =~= s.take(i as int));
            let ghost one = match s[i as int] {
                ImplMember::Fn(f) => recorded(f, Some(receiver), site, inline),
                ImplMember::Other => Seq::<FunctionView>::empty(),
            };
            let part = match &item_impl.members[i] {
                ImplMember::Fn(item_fn) => FileWalker::checked_record(
                    package,
                    item_fn,
                    Some(receiver_name),
                    path_key,
                    relative_file,
                    module_prefix,
                    inline_modules,
                ),
                ImplMember::Other => {
                    let none: Vec<SourceFunction> = Vec::new();
                    assert(functions_view(none@) =~= Seq::<FunctionView>::empty());
                    Some(none)
                },
            };
            proof {
                lemma_fit_concat(members_found(s.take(i as int), receiver, site, inline), one);
            }
            match part {
                Some(part) => {
                    append_found(&mut all, part);
                },
                None => {
                    proof {
                        if complexities_fit(members_found(s, receiver, site, inline)) {
                            lemma_members_prefix_fit(s, i + 1, receiver, site, inline);
                        }
                    }
                    return None;
                },
            }
            i += 1;
        }
        assert(s.take(s.len() as int) =~= s);
        Some(all)
    }

    /// The methods of an `impl` block, named after its self type; test-only
    /// methods are left out.
    pub fn visit_impl(
        package: &PackageContext,
        item_impl: &ImplBlock,
        path_key: &str,
        relative_file: &str,
        module_prefix: &[String],
        inline_modules: &[String],
    ) -> (functions: Vec<SourceFunction>)
        requires
            complexities_fit(
                impl_found(
                    *item_impl,
                    site_of(*package, path_key@, relative_file@, module_prefix@),
                    strings_view(inline_modules@),
                ),
            ),
        ensures
            functions_view(functions@) == impl_found(
                *item_impl,
                site_of(*package, path_key@, relative_file@, module_prefix@),
                strings_view(inline_modules@),
            ),
    {
        match Self::checked_impl(
            package,
            item_impl,
            path_key,
            relative_file,
            module_prefix,
            inline_modules,
        ) {
            Some(functions) => functions,
            None => Vec::new(),
        }
    }
}

} // verus!
