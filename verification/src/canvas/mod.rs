//! The shared canvas: a document composed of CRDTs, and the views of it that clients see.
pub mod document;
pub mod effects;
pub mod laws;
pub mod leaderboard;
pub mod mesh;
pub mod mesh_counts;
pub mod mesh_delta;
pub mod mesh_removals;
pub mod mesh_tags;
pub mod mesh_valid;
pub mod removals;
pub mod shown;
pub mod view;

pub use document::{CanvasDelta, CanvasDocument, PixelCoord, Rgba, DEFAULT_PIXEL};
pub use removals::Removal;
pub use view::{CanvasDeltaView, CanvasView, LeaderboardEntry, Session};
