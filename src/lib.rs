//! A live training dashboard core: status-event decoding, the session
//! aggregate those events update, and the numeric and visual derivations
//! that a renderer draws from a session snapshot.

pub mod decimal;
pub mod event;
pub mod session;
pub mod json;
pub mod decode;
pub mod text;
pub mod render;
pub mod control;
