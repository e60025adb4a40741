//! A templating engine for shader source: a small expression language and a
//! line-directive preprocessor, evaluated against a two-tier environment.
pub mod error;
pub mod expression;
pub mod laws;
pub mod parser;
pub mod render;
pub mod segment;
pub mod shader;
pub mod state;
pub mod text;
pub mod workspace;

pub use error::{IntErrorKind, WgslError};
pub use expression::{WgslComparison, WgslExpression, WgslLiteral, WgslOperator, WgslUnaryOperator};

pub use segment::{WgslSegment, WgslSegmentEndReason};
pub use shader::WgslShader;
pub use state::WgslWorkspaceState;
pub use workspace::WgslWorkspace;
