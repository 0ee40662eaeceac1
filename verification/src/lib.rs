//! Brightness control for monitors over DDC/CI: the decisions behind finding
//! the I2C device of a display output, reading a user's value request and
//! reporting the result, each stated as a contract and proved.

pub mod adjust;
pub mod feature_code;
pub mod number;
pub mod path;
pub mod report;
pub mod resolver;
pub mod session;
pub mod text;
