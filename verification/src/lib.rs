//! Validation of the records of teams and people that a team repository keeps.
//!
//! [`validate::validate`] runs the checks of [`checks`] on the records of [`schema`] and
//! reports what they find. Each check states exactly which findings it adds, and each has
//! a law that says what holds of the records when it adds none.

pub mod checks;
pub mod findings;
pub mod schema;
pub mod text;
pub mod validate;
