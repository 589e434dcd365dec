pub mod alias;
pub mod content;
pub mod greedy;
pub mod history;
pub mod inference;
pub mod matcher;
pub mod normalizer;
