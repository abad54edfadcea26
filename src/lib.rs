pub mod config;
pub mod queues;
pub mod severity;
pub mod shader_type;
pub mod shader_type_laws;
pub mod text;
pub mod transform;
pub mod transform_laws;
pub mod type_lexer;
