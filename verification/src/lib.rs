//! Keeps the labels of Herdr tabs in step with the title that OpenCode gives its terminal,
//! and puts an icon for the status of the tab's agents in front of each.
//!
//! [`policy`] decides about one tab, [`store`] keeps what is known of all of them, and
//! [`runtime`] works on an event, step by step. What holds of all that is stated and proved:
//! of texts in [`text_laws`], of labels and decisions in [`label_laws`] and [`policy_laws`], of
//! the stored states in [`store_laws`], and of the work on events in [`exchange_laws`],
//! [`runtime_laws`], [`event_laws`] and [`startup_laws`]. [`view_laws`] states that the views
//! which all that is stated over leave nothing out.

pub mod command;
pub mod event_laws;
pub mod exchange_laws;
pub mod failure;
pub mod label_laws;
pub mod launch;
pub mod policy;
pub mod policy_laws;
pub mod runtime;
pub mod runtime_laws;
pub mod startup_laws;
pub mod store;
pub mod store_laws;
pub mod text;
pub mod text_laws;
pub mod text_map;
pub mod view_laws;
