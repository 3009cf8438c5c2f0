//! Mutation of values.
pub mod buffer;
pub mod call;
pub mod fixup;
pub mod group;
pub mod integer;
pub mod ptr;
pub mod res_ctx;
pub mod res_use;
pub mod value;
pub mod seq;
pub mod stable;
