//! An HTML templating core: a markup tree is compiled into an intermediate
//! representation of static literal text and dynamic render operations, and
//! that representation is assembled into an HTML string by one of two
//! interchangeable strategies.  The escaping policy, the numeric formatting
//! and the component composition rules are stated as contracts and verified.

pub mod assemble;
pub mod emit;
pub mod escape;
pub mod ir;
pub mod node;
pub mod render;

pub use escape::escape;
pub use emit::CompileError;
pub use emit::compile_segments;
pub use assemble::assemble_buffer;
pub use assemble::assemble_format;
pub use assemble::positional_inputs;
pub use render::Component;
pub use render::Render;
pub use render::Value;
pub use node::Attribute;
pub use node::AttrValue;
pub use node::Element;
pub use node::Node;
pub use ir::Segment;
pub use ir::Invocation;
pub use ir::Arg;
