pub use crate::char_buffer::CharBuffer;
pub use crate::line::Line;
pub use crate::rendering::{Mesh, Vector2, Vector3};
pub use crate::runner::ProcessReturn;
