//! Traceability between specifications and code.
//!
//! Requirements are defined in spec documents and referred to from source
//! files. This library reads both, computes which requirements are implemented,
//! verified, stale or unknown, and answers what editors and pages ask about
//! them. It reads no files itself: contents are handed in.

pub mod adoc_backend;
pub mod adoc_html;
pub mod adoc_marker;
pub mod adoc_references;
pub mod adoc_renderable;
pub mod adoc_tree;
pub mod adoc_walk;
pub mod api;
pub mod assembly;
pub mod attributes;
pub mod badge;
pub mod badge_laws;
pub mod bindings;
pub mod build_laws;
pub mod cache;
pub mod completion;
pub mod config;
pub mod coverage;
pub mod coverage_laws;
pub mod cycles;
pub mod dashboard;
pub mod dashboard_laws;
pub mod diagnostic_laws;
pub mod diagnostics;
pub mod document;
pub mod document_laws;
pub mod editor_laws;
pub mod extraction_laws;
pub mod format;
pub mod globs;
pub mod heading_laws;
pub mod html;
pub mod html_laws;
pub mod impl_scan;
pub mod languages;
pub mod lexer;
pub mod lexer_laws;
pub mod lookup;
pub mod lookup_laws;
pub mod lsp;
pub mod lsp_document;
pub mod marker_laws;
pub mod markers;
pub mod numbers;
pub mod order;
pub mod order_laws;
pub mod outline;
pub mod outline_laws;
pub mod page_laws;
pub mod path_laws;
pub mod paths;
pub mod positions;
pub mod queries;
pub mod query_laws;
pub mod refs;
pub mod renderable_laws;
pub mod requirement;
pub mod reslug;
pub mod rule_id;
pub mod scan;
pub mod scan_laws;
pub mod slugs;
pub mod sorted_map;
pub mod source_laws;
pub mod source_view;
pub mod sources;
pub mod spec_content;
pub mod spec_diagnostic_laws;
pub mod spec_diagnostics;
pub mod spec_docs;
pub mod spec_laws;
pub mod split;
pub mod text;
pub mod text_laws;
pub mod validation;
pub mod validation_laws;
