pub mod text;
pub mod display;
pub mod pattern;
pub mod value;
pub mod license;
pub mod tree;
pub mod license_scan;
pub mod autofix;
pub mod depgraph;
pub mod depgraph_scan;
pub mod report;
pub mod sca;
pub mod sast;
pub mod complexity;
pub mod autofix_scan;
pub mod security;
pub mod history;
pub mod scan;
pub mod tally;
pub mod calendar;
pub mod analytics;
pub mod cli;
pub mod html;
