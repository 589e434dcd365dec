pub mod header_detector;
pub mod preview;
pub mod reader;
pub mod transformer;
pub mod visibility;
pub mod writer;
pub mod xml_steps;
