//! Summaries of a repository's recent issues for a chat channel: the text budgets that fit
//! posts to a model, the lenient reading of the model's reply, the chat command, and the
//! messages sent back.
pub mod report;
pub mod squeeze;
pub mod summary;
pub mod text;
pub mod tokens;
pub mod trigger;

pub use report::{
    issue_message, issue_narrative, issue_query, limit_notice, render_summary,
    repo_error_message, system_prompt, user_prompt, uses_large_model, IssueComment, IssuePost,
};
pub use squeeze::squeeze_fit_remove_quoted;
pub use summary::{custom_json_parser, IssueSummary};
pub use tokens::{fit_token_budget, squeeze_fit_post_texts};
pub use trigger::{batch_plan, parse_trigger, TriggerRequest};
