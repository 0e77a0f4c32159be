//! Functions of array expressions.

pub mod case;
pub mod join;
pub mod intersperse;
pub mod take;
pub mod repeat;
pub mod shift;
pub mod ty;
pub mod split;
pub mod rand;
pub mod enumerate;
pub mod rev;
pub mod skip;
pub mod count;
pub mod nth;
