//! The linting core: diagnostics, the per-file context, and the orchestrator.

pub mod context;
pub mod engine;
pub mod problem;

pub use context::LintContext;
pub use engine::Linter;
pub use engine::LintError;
pub use problem::Level;
pub use problem::Problem;
