//! Placing points on a photograph and measuring the pixel distances
//! between them: geometry, the point registry, the text of the two logs,
//! and the click-driven session that ties them together.

pub mod geometry;
pub mod registry;
pub mod session;
pub mod text;

pub use geometry::{are_close, distance, Position};
pub use registry::{Point, PointRegistry};
pub use session::{replay, Event, Line, LogEntry, Session, Stroke, LABEL_RAISE, POINT_THRESHOLD};
pub use text::{connection_line, distance_label, point_line};
