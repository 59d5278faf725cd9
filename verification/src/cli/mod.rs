pub mod interactive;
pub mod run;
