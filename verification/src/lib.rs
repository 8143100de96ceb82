pub mod cli;
pub mod disposition;
pub mod download;
pub mod error;
pub mod paths;
pub mod scan;
pub mod session;
pub mod startup;
pub mod status;
pub mod text;
pub mod upload;
pub mod urls;
