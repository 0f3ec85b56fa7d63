//! Launch interception and tweak application engine.
//!
//! The library reconstructs a launcher command line from its tokens, finds an
//! embedded application identifier, synthesizes the environment a tweak
//! record asks for, and plans the final launch. All logic is verified; the
//! surrounding process, network and terminal work lives outside the library.

pub mod appid;
pub mod cmdline;
pub mod engine;
pub mod envmap;
pub mod tweaks;

pub use envmap::convert_bool;
