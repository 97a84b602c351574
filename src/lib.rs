//! A builder synthesizer: from the description of a record type with named
//! fields, it derives the plan of a companion builder (one slot and one setter
//! per field, and a `build` step), and it gives the behaviour of that builder
//! as executable, verified semantics.
//!
//! - [`schema`]: the record declaration as plain values.
//! - [`options`]: reads each field's `builder` attributes.
//! - [`types`]: finds the element type of a `Vec<T>` field.
//! - [`plan`]: chooses each field's slot kind and setter.
//! - [`generated`]: what the synthesized builder does at run time.
pub mod schema;
pub mod options;
pub mod types;
pub mod plan;
pub mod generated;
