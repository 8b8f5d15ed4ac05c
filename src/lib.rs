//! Fetches new comic chapters, lays their pages out on fixed-size document
//! pages, and delivers them to a list of recipients, remembering what has been
//! delivered so that nothing is processed twice.

pub mod text;
pub mod escape;
pub mod context;
pub mod layout;
pub mod dispatch;
pub mod source;
