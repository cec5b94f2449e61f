//! Heap scanning and object layout rules of a Julia runtime on an MMTk-style collector.
//!
//! Memory is data here: a sparse image of bytes with the facts that the runtime and the collector
//! know about it (`memory`, `heap`). On it stand the rules for types and layouts (`datatypes`,
//! `layouts`), the scan of objects, stacks and threads (`object_steps`, `traversal`,
//! `julia_scanning`, `gcstack`, `scanning`), the sizes and the copying of objects
//! (`object_model`), the slots that hold references (`slots`), the decisions behind the calls of
//! the runtime (`api`), and the binding for programs without the runtime (`julia_mlir`).
//!
//! What all of this comes to is stated over the bytes and words of the heap in modules of their own:
//! loads and stores (`memory_laws`), types (`type_laws`), the scan of an object (`scan_laws`), walks
//! (`walk_laws`), shadow stacks (`stack_laws`), roots (`root_laws`), sizes and copies (`size_laws`),
//! slots (`slot_laws`), the calls of the runtime (`api_laws`), and texts (`text_laws`).

pub mod api;
pub mod api_laws;
pub mod datatypes;
pub mod diagnostics;
pub mod gcstack;
pub mod heap;
pub mod julia_mlir;
pub mod julia_scanning;
pub mod julia_types;
pub mod layouts;
pub mod memory;
pub mod memory_laws;
pub mod object_model;
pub mod object_steps;
pub mod root_laws;
pub mod scan_laws;
pub mod scanning;
pub mod size_laws;
pub mod slot_laws;
pub mod slots;
pub mod stack_laws;
pub mod steps;
pub mod text;
pub mod text_laws;
pub mod traversal;
pub mod type_laws;
pub mod walk_laws;
