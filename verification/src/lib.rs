pub mod cargo_package_resolver;
pub mod complexity;
pub mod coverage;
pub mod coverage_index;
pub mod coverage_matching;
pub mod coverage_record;
pub mod file_walker;
pub mod impl_collector;
pub mod llvm_cov_builder;
pub mod llvm_cov_provider;
pub mod package_context;
pub mod path_order;
pub mod paths;
pub mod project_report;
pub mod source;
pub mod source_function;
pub mod source_function_discovery;
pub mod source_root_collector;
pub mod stdout_reporter;
pub mod subcommand;
pub mod syn_types;
pub mod syntax;
pub mod syntax_conversion;
pub mod test_module_registry;
pub mod text;
pub mod verdict;
pub mod workspace_paths;
