//! Static image discovery, cache keys and placeholder warm-up for server-rendered apps.
pub mod cache;
pub mod image;
pub mod introspect;
pub mod optimizer;

pub use cache::PlaceholderCache;
pub use introspect::{Crawl, ImageRegistry, RenderOutcome};
pub use optimizer::{Blur, CachedImage, CachedImageOption, Resize};
