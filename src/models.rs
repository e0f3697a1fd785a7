//! The records the review service returns.
use vstd::prelude::*;

verus! {

/// A pull request.
#[derive(Debug, Clone)]
pub struct PullRequest {
    pub id: u32,
    pub title: String,
    pub description: Option<String>,
    pub state: String,
    pub created_on: String,
    pub updated_on: String,
    pub author: User,
    pub source: Source,
    pub destination: Source,
    pub links: Links,
}

/// An account of the service.
#[derive(Debug, Clone)]
pub struct User {
    pub display_name: String,
    pub uuid: String,
    pub nickname: Option<String>,
}

/// One end of a pull request: a branch of a repository.
#[derive(Debug, Clone)]
pub struct Source {
    pub branch: Branch,
    pub repository: Repository,
}

/// A branch, by name.
#[derive(Debug, Clone)]
pub struct Branch {
    pub name: String,
}

/// A repository.
#[derive(Debug, Clone)]
pub struct Repository {
    pub name: String,
    pub full_name: String,
    pub uuid: String,
}

/// The links of a pull request.
#[derive(Debug, Clone)]
pub struct Links {
    pub html: Link,
}

/// A comment on a pull request.
#[derive(Debug, Clone)]
pub struct Comment {
    pub id: u32,
    pub content: Content,
    pub created_on: String,
    pub user: User,
    pub inline: Option<InlineContext>,
}

/// The text of a comment.
#[derive(Debug, Clone)]
pub struct Content {
    pub raw: String,
    pub html: Option<String>,
}

/// Where in a file an inline comment sits.
#[derive(Debug, Clone)]
pub struct InlineContext {
    pub path: String,
    pub from: Option<u32>,
    pub to: Option<u32>,
}

/// A hyperlink.
#[derive(Debug, Clone)]
pub struct Link {
    pub href: String,
}

/// The build status of a commit.
#[derive(Debug, Clone)]
pub struct CommitStatus {
    pub key: String,
    pub name: Option<String>,
    pub state: String,
    pub url: String,
}

/// The line an inline comment points at: the new side's, else the old side's.
pub fn comment_line(c: &InlineContext) -> (r: Option<u32>)
    ensures
        r == match c.to {
            Some(t) => Some(t),
            None => c.from,
        },
{
    match c.to {
        Some(t) => Some(t),
        None => c.from,
    }
}

} // verus!
