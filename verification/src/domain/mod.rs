pub mod import_session;
pub mod mapping;
pub mod template;
