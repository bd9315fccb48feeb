pub mod value;
pub mod truth;
pub mod env;
pub mod eval;
