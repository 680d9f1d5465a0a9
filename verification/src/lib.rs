pub mod cache;
pub mod coord;
pub mod engine;
pub mod h3;
pub mod text;

pub use cache::Distance;
pub use cache::Query;
pub use coord::GeoCoordinate;
pub use engine::Answer;
pub use engine::CoreError;
pub use engine::Engine;
pub use engine::Side;
pub use engine::Step;
