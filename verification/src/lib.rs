pub mod text;
pub mod strmap;
pub mod markdown;
pub mod issues;
pub mod query;
pub mod fcp;
pub mod agenda;
pub mod ipcheck;
pub mod contributors;
pub mod minutes;
pub mod unstable;
pub mod cli;
pub mod survey;
pub mod ipnew;
