//! Release aggregation and asset resolution for a modding-loader framework:
//! the version model, the two release sources, the catalog that unifies them,
//! and the resolver that names the one asset a target application needs.
pub mod text;
pub mod version;
pub mod game;
pub mod bepinex;
pub mod github;
pub mod builds;
mod html;
