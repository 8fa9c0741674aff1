//! Dictionary-bot core: translation directions, markup extraction,
//! the two-tier translation cache, per-chat configuration, and the
//! request pipeline that ties them together.

pub mod bot;
pub mod cache_repository;
pub mod constants;
pub mod direction;
pub mod fetch_translations;
pub mod markup;
pub mod text;
pub mod user_repository;

pub use direction::flip_direction;
pub use direction::is_valid_direction;
