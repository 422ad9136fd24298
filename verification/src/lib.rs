//! Finds types that are improper in the foreign interfaces of a crate, and keeps
//! a record of them.
//!
//! - [`ty`] holds the table of types that a check walks over.
//! - [`nullable`] tells enums that are represented as a nullable pointer.
//! - [`check`] says what makes a type safe to pass to C; [`check_laws`] says what
//!   a verdict means.
//! - [`opaque`] looks for opaque types.
//! - [`report`] says what is reported of a type and of a function; [`visitor`]
//!   does it.
//! - [`store`] numbers the errors and counts them, item by item.
//! - [`lint`] puts all of it together, for a crate and for each of its items.
//!
//! What holds of all this is stated as laws.
//!
//! - [`verdict_laws`] says what the verdict on each kind of type is, and
//!   [`nullable_laws`] which types are never null and which enums are nullable
//!   pointers.
//! - [`report_laws`] says what is reported, and [`record_laws`] what the record
//!   holds of it.
//! - [`session_laws`] says what holds of the record however the lint is used.
//! - [`describe_laws`] says that an answer does not depend on types that were not
//!   needed for it, and [`asking_laws`] that only missing types are asked for.

pub mod asking_laws;
pub mod check;
pub mod check_laws;
pub mod describe_laws;
pub mod error;
pub mod lint;
pub mod nullable;
pub mod nullable_laws;
pub mod opaque;
pub mod pending;
pub mod record_laws;
pub mod report;
pub mod report_laws;
pub mod session_laws;
pub mod store;
pub mod ty;
pub mod verdict_laws;
pub mod visitor;
