//! The type checker of the Saga language: its types and substitutions, the
//! module graph, module headers, exports and import scopes, and the rules that
//! declarations, traits, effects and handlers are checked by.

pub mod annotations;
pub mod arm_run;
pub mod ast;
pub mod bounds;
pub mod builtins;
pub mod canonical_exports;
pub mod checker;
pub mod clause_run;
pub mod codegen_info;
pub mod constraints;
pub mod cycle_run;
pub mod definitions;
pub mod diagnostics;
pub mod display;
pub mod effect_decls;
pub mod effect_ops;
pub mod effects;
pub mod exports;
pub mod fun_clauses;
pub mod fun_schemes;
pub mod fun_types;
pub mod graph;
pub mod graph_build;
pub mod handlers;
pub mod header;
pub mod header_convert;
pub mod header_decls;
pub mod header_lsp;
pub mod header_names;
pub mod header_register;
pub mod header_scope;
pub mod header_syntax;
pub mod impl_methods;
pub mod impls;
pub mod import_laws;
pub mod import_scope;
pub mod infos;
pub mod loading;
pub mod method_run;
pub mod names;
pub mod origins;
pub mod param_text;
pub mod patterns;
pub mod program;
pub mod reachability;
pub mod row_join;
pub mod scan;
pub mod scheme_run;
pub mod schemes;
pub mod scope;
pub mod seqs;
pub mod signatures;
pub mod solver_laws;
pub mod sorting;
pub mod subst;
pub mod supertraits;
pub mod surface;
pub mod surface_laws;
pub mod table;
pub mod tarjan;
pub mod text;
pub mod token;
pub mod traits;
pub mod type_decls;
pub mod type_ops;
pub mod type_vars;
pub mod types;
pub mod values;

