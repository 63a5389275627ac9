mod api;
pub mod basis;
pub mod candidates;
pub mod codec;
pub mod convert;
pub mod direction;
mod error;
mod model;
pub mod display;
pub mod form;
pub mod input;
pub mod localize;
pub mod messages;
pub mod motion;
pub mod rule;
pub mod search;
pub mod status;
pub mod sums;
pub mod text;

pub use api::{check_config, code_to_rb, rb_to_code};
pub use error::PearlError;
pub use model::{
    Code, CodeCaps, CodeExtra, CodeItem, CodeRule, Dimension, Direction, Directions, TNTNum,
    TNTNumCode, TNTNumRB, Time, RB,
};
