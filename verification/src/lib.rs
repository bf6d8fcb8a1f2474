//! A dictionary lookup client's core: decoding the dictionary API's JSON
//! responses into a typed model, rendering entries as display lines, and the
//! decisions of the interactive session. The surrounding program does the
//! transport and the terminal work and calls in here for everything else.

pub mod decode;
pub mod json;
pub mod model;
pub mod render;
pub mod session;
pub mod text;
