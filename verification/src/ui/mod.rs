//! Screen state that the terminal front end draws: the text fields, the
//! add/edit form, the Bear triage screen and the keyboard reference.

pub mod field;
pub mod form;
pub mod help;
pub mod rows;
pub mod theme;
pub mod triage;
