//! The decisions behind the application's commands; reading and writing files,
//! the session store and the database stay with the caller.
pub mod convert;
pub mod import;
pub mod template;
