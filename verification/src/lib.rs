//! A YAML linter: line-oriented style checks, inline `# yl:` directives,
//! per-rule configuration, and a single-file lint orchestrator.

pub mod chars;
pub mod cli;
pub mod config;
pub mod diff;
pub mod fixes;
pub mod linter;
pub mod migration;
pub mod output;
pub mod parser;
pub mod plugins;
pub mod rules;

pub use cli::Cli;
pub use cli::Commands;
pub use cli::MigrateCommands;
pub use cli::OutputFormat;
pub use cli::PluginCommands;
pub use config::Config;
pub use config::inline::InlineConfigManager;
pub use linter::LintContext;
pub use linter::LintError;
pub use linter::Level;
pub use linter::Linter;
pub use linter::Problem;
pub use parser::CommentProcessor;
pub use parser::Directive;
pub use parser::Scope;
pub use rules::ConfigValue;
pub use rules::RuleConfig;
pub use rules::RuleRegistry;
