//! The text around one issue: the narrative handed to the model, the prompts, the model
//! tier, and the messages that go back to the channel.
use vstd::prelude::*;
use crate::squeeze::{squeeze_fit_remove_quoted, squeezed};
use crate::summary::{list_view, text_view, IssueSummary};
use crate::text::{join_sep, join_strings, string_views};
use crate::tokens::{squeeze_fit_post_texts, squeezed_tokens};

verus! {

/// Word budget of an issue's opening post.
pub const POST_WORDS: u16 = 500;

/// Word budget of each comment.
pub const COMMENT_WORDS: u16 = 300;

/// Share of a word budget, in percent, kept from the head of a post.
pub const WORD_HEAD_PERCENT: u32 = 60;

/// Token budget of the whole narrative.
pub const NARRATIVE_TOKENS: u16 = 12000;

/// Share of the token budget, in percent, kept from the head of the narrative.
pub const TOKEN_HEAD_PERCENT: u32 = 40;

/// Narratives longer than this many characters go to the larger-context model.
pub const LARGE_MODEL_CHARS: usize = 12000;

/// What the narrative reads of an issue.
pub struct IssuePost {
    pub creator: String,
    pub title: String,
    pub labels: Vec<String>,
    pub body: Option<String>,
}

/// What the narrative reads of a comment.
pub struct IssueComment {
    pub commenter: String,
    pub body: Option<String>,
}

pub open spec fn post_body(b: Option<String>, words: nat) -> Seq<char> {
    match b {
        Some(s) => squeezed(s@, words, WORD_HEAD_PERCENT as nat),
        None => Seq::empty(),
    }
}

pub open spec fn opening_text(p: IssuePost) -> Seq<char> {
    "User '"@ + p.creator@ + "', opened an issue titled '"@ + p.title@ + "', labeled '"@
        + join_sep(string_views(p.labels@), ", "@) + "', with the following post: '"@ + post_body(
        p.body,
        POST_WORDS as nat,
    ) + "'."@
}

pub open spec fn comment_text(c: IssueComment) -> Seq<char> {
    c.commenter@ + " commented: "@ + post_body(c.body, COMMENT_WORDS as nat)
}

/// The narrative of an issue and its comments, before the token budget.
pub open spec fn narrative(p: IssuePost, cs: Seq<IssueComment>) -> Seq<char>
    decreases cs.len(),
{
    if cs.len() == 0 {
        opening_text(p)
    } else {
        narrative(p, cs.drop_last()) + comment_text(cs.last())
    }
}

fn post_body_text(b: &Option<String>, words: u16) -> (r: String)
    ensures
        r@ == post_body(*b, words as nat),
{
    match b {
        Some(s) => squeeze_fit_remove_quoted(s.as_str(), words, WORD_HEAD_PERCENT),
        None => String::new(),
    }
}

/// The narrative of an issue that the model reads: who opened it, its title, its labels
/// joined by commas and its post fitted to `POST_WORDS` words, then each comment as
/// "<commenter> commented: <body>" with the body fitted to `COMMENT_WORDS` words; the whole
/// fitted to `NARRATIVE_TOKENS` tokens.
pub fn issue_narrative(post: &IssuePost, comments: &Vec<IssueComment>) -> (r: String)
    ensures
        r@ == squeezed_tokens(
            narrative(*post, comments@),
            NARRATIVE_TOKENS as nat,
            TOKEN_HEAD_PERCENT as nat,
        ),
{
    let mut text = String::from_str("User '");
    text.append(post.creator.as_str());
    text.append("', opened an issue titled '");
    text.append(post.title.as_str());
    text.append("', labeled '");
    text.append(join_strings(&post.labels, ", ").as_str());
    text.append("', with the following post: '");
    text.append(post_body_text(&post.body, POST_WORDS).as_str());
    text.append("'.");
    let mut i: usize = 0;
    while i < comments.len()
        invariant
            i <= comments.len(),
            text@ == narrative(*post, comments@.take(i as int)),
        decreases comments.len() - i,
    {
        let c = &comments[i];
        assert(comments@.take(i + 1).drop_last() =~= comments@.take(i as int));
        text.append(c.commenter.as_str());
        text.append(" commented: ");
        text.append(post_body_text(&c.body, COMMENT_WORDS).as_str());
        i += 1;
    }
    assert(comments@.take(comments.len() as int) =~= comments@);
    squeeze_fit_post_texts(text.as_str(), NARRATIVE_TOKENS, TOKEN_HEAD_PERCENT)
}

/// Whether the narrative needs the larger-context model: it is longer than
/// `LARGE_MODEL_CHARS` characters.
pub fn uses_large_model(text: &str) -> (r: bool)
    ensures
        r == (text@.len() > LARGE_MODEL_CHARS),
{
    text.unicode_len() > LARGE_MODEL_CHARS
}

pub open spec fn system_prompt_text(creator: Seq<char>, title: Seq<char>) -> Seq<char> {
    "Given the information that user '"@ + creator + "' opened an issue titled '"@ + title
        + "', your task is to deeply analyze the content of the issue posts. Concentrate on the principal arguments, suggested solutions, and areas of consensus or disagreement among the participants, then generate a succinct, context-aware summary of the issue."@
}

/// The system prompt for one issue, naming who opened it and its title.
pub fn system_prompt(creator: &str, title: &str) -> (r: String)
    ensures
        r@ == system_prompt_text(creator@, title@),
{
    let mut p = String::from_str("Given the information that user '");
    p.append(creator);
    p.append("' opened an issue titled '");
    p.append(title);
    p.append(
        "', your task is to deeply analyze the content of the issue posts. Concentrate on the principal arguments, suggested solutions, and areas of consensus or disagreement among the participants, then generate a succinct, context-aware summary of the issue.",
    );
    p
}

pub open spec fn user_prompt_text(narrative: Seq<char>) -> Seq<char> {
    "Analyze the GitHub issue content: "@ + narrative
        + ". Concentrate on the principal arguments, suggested solutions, and areas of consensus or disagreement among the participants. From these elements, generate a concise summary of the entire issue to inform the next course of action. Please reply in the following JSON format. If no information is available for a field, leave that field empty. If information is available, summarize it as a single, complete sentence covering one or multiple facts: \n\n```\n{\n\"PrincipalArguments\": \"\",\n\"SuggestedSolutions\": \"\",\n\"AreasOfConsensus\": \"\",\n\"AreasOfDisagreement\": \"\",\n\"ConciseSummary\": \"\"\n}\n```"@
}

/// The request for one issue: the narrative, what to extract from it, and the five-field
/// shape of the reply.
pub fn user_prompt(narrative: &str) -> (r: String)
    ensures
        r@ == user_prompt_text(narrative@),
{
    let mut p = String::from_str("Analyze the GitHub issue content: ");
    p.append(narrative);
    p.append(
        ". Concentrate on the principal arguments, suggested solutions, and areas of consensus or disagreement among the participants. From these elements, generate a concise summary of the entire issue to inform the next course of action. Please reply in the following JSON format. If no information is available for a field, leave that field empty. If information is available, summarize it as a single, complete sentence covering one or multiple facts: \n\n```\n{\n\"PrincipalArguments\": \"\",\n\"SuggestedSolutions\": \"\",\n\"AreasOfConsensus\": \"\",\n\"AreasOfDisagreement\": \"\",\n\"ConciseSummary\": \"\"\n}\n```",
    );
    p
}

/// `s` written as a quoted, escaped string literal.
pub uninterp spec fn debug_quoted(s: Seq<char>) -> Seq<char>;

/// Relies on the `Debug` impl of `str` (through `format!("{:?}")`): `s` in double quotes,
/// with quotes, backslashes and control characters escaped.
#[verifier::external_body]
fn quote_debug(s: &str) -> (r: String)
    ensures
        r@ == debug_quoted(s@),
{
    format!("{:?}", s)
}

pub open spec fn list_line(label: Seq<char>, field: Option<Seq<Seq<char>>>) -> Seq<char> {
    match field {
        Some(v) => label + debug_quoted(join_sep(v, " "@)) + "\n"@,
        None => Seq::empty(),
    }
}

pub open spec fn summary_line(field: Option<Seq<char>>) -> Seq<char> {
    match field {
        Some(s) => "Summary: "@ + s,
        None => Seq::empty(),
    }
}

/// The message text of a summary, or `None` when every field is absent.
pub open spec fn rendered(s: IssueSummary) -> Option<Seq<char>> {
    if s.principal_arguments is None && s.suggested_solutions is None && s.areas_of_consensus
        is None && s.areas_of_disagreement is None && s.concise_summary is None {
        None
    } else {
        Some(
            list_line("Key arguments: "@, list_view(s.principal_arguments)) + " "@ + list_line(
                "Solutions: "@,
                list_view(s.suggested_solutions),
            ) + " "@ + list_line("Consensus: "@, list_view(s.areas_of_consensus)) + " "@
                + list_line("Disagreement: "@, list_view(s.areas_of_disagreement)) + " "@
                + summary_line(text_view(s.concise_summary)),
        )
    }
}

fn list_line_text(label: &str, field: &Option<Vec<String>>) -> (r: String)
    ensures
        r@ == list_line(label@, list_view(*field)),
{
    match field {
        Some(v) => {
            let mut line = String::from_str(label);
            line.append(quote_debug(join_strings(v, " ").as_str()).as_str());
            line.append("\n");
            line
        },
        None => String::new(),
    }
}

/// The message for a recovered summary: the present fields in the fixed order arguments,
/// solutions, consensus, disagreement, summary, each a labeled line, separated by spaces.
/// A summary with every field absent counts as a failure and gives `None`.
pub fn render_summary(s: &IssueSummary) -> (r: Option<String>)
    ensures
        match r {
            Some(t) => rendered(*s) == Some(t@),
            None => rendered(*s) is None,
        },
{
    if s.principal_arguments.is_none() && s.suggested_solutions.is_none()
        && s.areas_of_consensus.is_none() && s.areas_of_disagreement.is_none()
        && s.concise_summary.is_none() {
        return None;
    }
    let mut out = list_line_text("Key arguments: ", &s.principal_arguments);
    out.append(" ");
    out.append(list_line_text("Solutions: ", &s.suggested_solutions).as_str());
    out.append(" ");
    out.append(list_line_text("Consensus: ", &s.areas_of_consensus).as_str());
    out.append(" ");
    out.append(list_line_text("Disagreement: ", &s.areas_of_disagreement).as_str());
    out.append(" ");
    match &s.concise_summary {
        Some(c) => {
            out.append("Summary: ");
            out.append(c.as_str());
        },
        None => {},
    }
    Some(out)
}

pub open spec fn issue_message_text(summary: Option<Seq<char>>, url: Seq<char>) -> Seq<char> {
    match summary {
        Some(s) => s + "\n"@ + url,
        None => "Summarization failed, no summary generated for issue: "@ + url,
    }
}

/// The message sent for one issue: its summary and link, or a failure notice and link.
pub fn issue_message(summary: Option<String>, url: &str) -> (r: String)
    ensures
        r@ == issue_message_text(text_view(summary), url@),
{
    match summary {
        Some(s) => {
            let mut m = s;
            m.append("\n");
            m.append(url);
            m
        },
        None => {
            let mut m = String::from_str("Summarization failed, no summary generated for issue: ");
            m.append(url);
            m
        },
    }
}

pub open spec fn limit_notice_text() -> Seq<char> {
    "You've reached your limit of 10 issues. Please wait 10 minutes before running the command again."@
}

/// The notice sent once a batch reaches its limit of issues.
pub fn limit_notice() -> (r: String)
    ensures
        r@ == limit_notice_text(),
{
    String::from_str(
        "You've reached your limit of 10 issues. Please wait 10 minutes before running the command again.",
    )
}

pub open spec fn repo_error_text(command: Seq<char>) -> Seq<char> {
    "Please double check if there are errors in the owner and repo names provided in your message:\n"@
        + command + "\nif yes, please correct the spelling and resend your instruction."@
}

/// The message sent when the issue search fails: it quotes the command back.
pub fn repo_error_message(command: &str) -> (r: String)
    ensures
        r@ == repo_error_text(command@),
{
    let mut m = String::from_str(
        "Please double check if there are errors in the owner and repo names provided in your message:\n",
    );
    m.append(command);
    m.append("\nif yes, please correct the spelling and resend your instruction.");
    m
}

pub open spec fn issue_query_text(owner: Seq<char>, repo: Seq<char>, cutoff: Seq<char>) -> Seq<char> {
    "repo:"@ + owner + "/"@ + repo + " is:issue state:open updated:>"@ + cutoff
}

/// The search for the open issues of `owner/repo` updated after the timestamp `cutoff`.
pub fn issue_query(owner: &str, repo: &str, cutoff: &str) -> (r: String)
    ensures
        r@ == issue_query_text(owner@, repo@, cutoff@),
{
    let mut q = String::from_str("repo:");
    q.append(owner);
    q.append("/");
    q.append(repo);
    q.append(" is:issue state:open updated:>");
    q.append(cutoff);
    q
}

} // verus!
