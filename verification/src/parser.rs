//! Comment parsing: the inline `# yl:` directive language.

pub mod comments;

pub use comments::CommentProcessor;
pub use comments::Directive;
pub use comments::DirectiveParseError;
pub use comments::ParamMap;
pub use comments::Scope;
