//! Policy logic of an agent-configuration toolkit: a quote-aware shell
//! tokenizer, the ripgrep `-r` footgun detector, the decisions of the
//! session hooks, and the path planning of the installer.

pub mod decimal;
pub mod footgun;
pub mod format_hook;
pub mod grill;
pub mod installer;
pub mod pane;
pub mod payload;
pub mod shell;
pub mod text;
