//! The most common items in one place: the map, its values, the
//! predicate algebra and the checking capability.

pub use crate::conditions::Checkable;
pub use crate::conditions::Condition;
pub use crate::value::CfgMap;
pub use crate::value::CfgValue;
