pub mod effects;
pub mod pattern;
pub mod operator;
pub mod check;
pub mod string_internal;
pub mod resolver;
pub mod tokens;
pub mod machine;
