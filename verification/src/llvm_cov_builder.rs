//! The `cargo llvm-cov` invocation that produces a coverage export, and where
//! its output goes.
use vstd::prelude::*;

use crate::package_context::{names_of, package_names, PackageContext};
use crate::paths::{join_path, path_join, strings_view};
use crate::text::{join_strings, joined, replace_char, replaced};

verus! {

/// A package name as it stands in a coverage file name: `-` becomes `_`.
pub open spec fn underscored(name: Seq<char>) -> Seq<char> {
    replaced(name, '-', '_')
}

/// The name of the coverage export for a set of packages: their underscored
/// names joined by `__`, then `-coverage.json`.
pub open spec fn coverage_file_name_spec(names: Seq<Seq<char>>) -> Seq<char> {
    joined(names.map_values(|n: Seq<char>| underscored(n)), "__"@) + "-coverage.json"@
}

/// The name of the coverage export for the packages.
pub fn coverage_file_name(packages: &[PackageContext]) -> (name: String)
    ensures
        name@ == coverage_file_name_spec(package_names(packages@)),
{
    let names = names_of(packages);
    let ghost views = strings_view(names@);
    let mut parts: Vec<String> = Vec::new();
    let mut i: usize = 0;
    while i < names.len()
        invariant
            views == strings_view(names@),
            i <= names@.len(),
            strings_view(parts@) == views.take(i as int).map_values(|n: Seq<char>| underscored(n)),
        decreases names@.len() - i,
    {
        let ghost before = parts@;
        parts.push(replace_char(names[i].as_str(), '-', '_'));
        assert(strings_view(parts@) =~= strings_view(before).push(underscored(views[i as int])));
        assert(views.take(i + 1).map_values(|n: Seq<char>| underscored(n)) =~= views.take(
            i as int,
        ).map_values(|n: Seq<char>| underscored(n)).push(underscored(views[i as int])));
        i += 1;
    }
    assert(views.take(names@.len() as int) =~= views);
    let mut name = join_strings(parts.as_slice(), "__");
    name.append("-coverage.json");
    name
}

/// The directory that generated coverage exports go to:
/// `target/crap4rust` below the workspace root.
pub fn coverage_output_dir(workspace_root: &str) -> (dir: String)
    ensures
        dir@ == path_join(path_join(workspace_root@, "target"@), "crap4rust"@),
{
    let target = join_path(workspace_root, "target");
    join_path(target.as_str(), "crap4rust")
}

/// Where the coverage export for the packages is written, in `output_dir`.
pub fn coverage_output_path(output_dir: &str, packages: &[PackageContext]) -> (path: String)
    ensures
        path@ == path_join(output_dir@, coverage_file_name_spec(package_names(packages@))),
{
    let name = coverage_file_name(packages);
    join_path(output_dir, name.as_str())
}

/// The arguments that pass the manifest path and the feature options on.
pub open spec fn config_args(
    manifest_path: Option<Seq<char>>,
    features: Option<Seq<char>>,
    all_features: bool,
    no_default_features: bool,
) -> Seq<Seq<char>> {
    let manifest = match manifest_path {
        Some(m) => seq!["--manifest-path"@, m],
        None => Seq::empty(),
    };
    let feature_list = match features {
        Some(f) => seq!["--features"@, f],
        None => Seq::empty(),
    };
    let all = if all_features {
        seq!["--all-features"@]
    } else {
        Seq::empty()
    };
    let no_default = if no_default_features {
        seq!["--no-default-features"@]
    } else {
        Seq::empty()
    };
    manifest + feature_list + all + no_default
}

/// A `--package` argument for each package, in order.
pub open spec fn package_args(names: Seq<Seq<char>>) -> Seq<Seq<char>>
    decreases names.len(),
{
    if names.len() == 0 {
        Seq::empty()
    } else {
        package_args(names.drop_last()) + seq!["--package"@, names.last()]
    }
}

/// The characters of an optional string slice.
pub open spec fn str_option_view(o: Option<&str>) -> Option<Seq<char>> {
    match o {
        Some(s) => Some(s@),
        None => None,
    }
}

/// The command line of a `cargo llvm-cov` run, built up step by step.
pub struct LlvmCovBuilder {
    program: String,
    args: Vec<String>,
}

impl LlvmCovBuilder {
    /// The program the command runs.
    pub closed spec fn program_view(self) -> Seq<char> {
        self.program@
    }

    /// The arguments the command passes, in order.
    pub closed spec fn args_view(self) -> Seq<Seq<char>> {
        strings_view(self.args@)
    }

    /// `cargo llvm-cov --json --output-path <output_path>`.
    pub fn new(output_path: &str) -> (builder: Self)
        ensures
            builder.program_view() == "cargo"@,
            builder.args_view() == seq!["llvm-cov"@, "--json"@, "--output-path"@, output_path@],
    {
        let mut args: Vec<String> = Vec::new();
        args.push("llvm-cov".to_owned());
        args.push("--json".to_owned());
        args.push("--output-path".to_owned());
        args.push(output_path.to_owned());
        let builder = LlvmCovBuilder { program: "cargo".to_owned(), args };
        assert(builder.args_view() =~= seq![
            "llvm-cov"@,
            "--json"@,
            "--output-path"@,
            output_path@,
        ]);
        builder
    }

    fn push_arg(&mut self, arg: &str)
        ensures
            final(self).program_view() == old(self).program_view(),
            final(self).args_view() == old(self).args_view().push(arg@),
    {
        let ghost before = self.args@;
        self.args.push(arg.to_owned());
        assert(strings_view(self.args@) =~= strings_view(before).push(arg@));
    }

    /// Passes the manifest path, the features and the feature switches on.
    pub fn apply_config(
        self,
        manifest_path: Option<&str>,
        features: Option<&str>,
        all_features: bool,
        no_default_features: bool,
    ) -> (builder: Self)
        ensures
            builder.program_view() == self.program_view(),
            builder.args_view() == self.args_view() + config_args(
                str_option_view(manifest_path),
                str_option_view(features),
                all_features,
                no_default_features,
            ),
    {
        let mut builder = self;
        let ghost start = builder.args_view();
        match manifest_path {
            Some(m) => {
                builder.push_arg("--manifest-path");
                builder.push_arg(m);
            },
            None => {},
        }
        match features {
            Some(f) => {
                builder.push_arg("--features");
                builder.push_arg(f);
            },
            None => {},
        }
        if all_features {
            builder.push_arg("--all-features");
        }
        if no_default_features {
            builder.push_arg("--no-default-features");
        }
        assert(builder.args_view() =~= start + config_args(
            str_option_view(manifest_path),
            str_option_view(features),
            all_features,
            no_default_features,
        ));
        builder
    }

    /// Adds `--package <name>` for each package, in order.
    pub fn add_packages(self, packages: &[PackageContext]) -> (builder: Self)
        ensures
            builder.program_view() == self.program_view(),
            builder.args_view() == self.args_view() + package_args(package_names(packages@)),
    {
        let mut builder = self;
        let ghost start = builder.args_view();
        let ghost names = package_names(packages@);
        let mut i: usize = 0;
        assert(names.take(0) =~= Seq::<Seq<char>>::empty());
        assert(start + package_args(names.take(0)) =~= start);
        while i < packages.len()
            invariant
                names == package_names(packages@),
                i <= packages@.len(),
                builder.program_view() == self.program_view(),
                builder.args_view() == start + package_args(names.take(i as int)),
            decreases packages@.len() - i,
        {
            assert(names.take(i + 1).drop_last() =~= names.take(i as int));
            assert(names.take(i + 1).last() == packages@[i as int].name@);
            builder.push_arg("--package");
            builder.push_arg(packages[i].name.as_str());
            assert(builder.args_view() =~= start + package_args(names.take(i + 1)));
            i += 1;
        }
        assert(names.take(packages@.len() as int) =~= names);
        builder
    }

    /// The program the command runs.
    pub fn program(&self) -> (program: &str)
        ensures
            program@ == self.program_view(),
    {
        self.program.as_str()
    }

    /// The arguments the command passes, in order.
    pub fn args(&self) -> (args: &[String])
        ensures
            strings_view(args@) == self.args_view(),
    {
        self.args.as_slice()
    }
}

} // verus!
