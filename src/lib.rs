pub mod read;
pub mod error;
pub mod instructions;
pub mod constants;
pub mod descriptor;
pub mod attributes;
pub mod fields;
pub mod methods;
pub mod class;
pub mod execution;
