//! The ways in which a command fails, and the text that reports each.

use vstd::prelude::*;
use vstd::string::*;
use crate::store::{Failure, FailureView, Operation};

verus! {

/// Why a command failed.
#[derive(Clone, Debug, PartialEq, Eq)]
pub enum CommandError {
    /// Both an inline payload and a payload file were given.
    ConflictingInput,
    /// The node type is none of the known tokens; holds the token as given.
    InvalidNodeType(String),
    /// The payload file could not be read.
    FileRead { file: String, cause: String },
    /// The node at this path does not exist.
    NodeMissing(String),
    /// The store refused a request.
    Store(Failure),
}

/// A [`CommandError`] as mathematical text.
pub enum CommandErrorView {
    ConflictingInput,
    InvalidNodeType(Seq<char>),
    FileRead { file: Seq<char>, cause: Seq<char> },
    NodeMissing(Seq<char>),
    Store(FailureView),
}

impl View for CommandError {
    type V = CommandErrorView;

    open spec fn view(&self) -> CommandErrorView {
        match self {
            CommandError::ConflictingInput => CommandErrorView::ConflictingInput,
            CommandError::InvalidNodeType(token) => CommandErrorView::InvalidNodeType(token@),
            CommandError::FileRead { file, cause } => CommandErrorView::FileRead {
                file: file@,
                cause: cause@,
            },
            CommandError::NodeMissing(path) => CommandErrorView::NodeMissing(path@),
            CommandError::Store(failure) => CommandErrorView::Store(failure@),
        }
    }
}

/// The words that say which request failed.
pub open spec fn operation_label(operation: Operation) -> Seq<char> {
    match operation {
        Operation::List => "无法列出路径: "@,
        Operation::Stat => "无法获取节点状态: "@,
        Operation::Read => "无法获取节点数据: "@,
        Operation::Create => "无法创建节点: "@,
        Operation::Write => "无法设置节点数据: "@,
        Operation::Delete => "无法删除节点: "@,
    }
}

/// The headline of a refused request: the request and the node's path.
pub open spec fn failure_headline(failure: FailureView) -> Seq<char> {
    operation_label(failure.operation) + failure.path
}

/// The headline that reports an error.
pub open spec fn headline(error: CommandErrorView) -> Seq<char> {
    match error {
        CommandErrorView::ConflictingInput => "不能同时指定 --data 和 --file 参数"@,
        CommandErrorView::InvalidNodeType(token) => "无效的节点类型: "@ + token
            + ". 支持的类型: persistent(p), ephemeral(e), persistent-sequential(ps), ephemeral-sequential(es)"@,
        CommandErrorView::FileRead { file, cause } => "无法读取文件: "@ + file,
        CommandErrorView::NodeMissing(path) => "节点不存在: "@ + path,
        CommandErrorView::Store(failure) => failure_headline(failure),
    }
}

/// The underlying reason of an error, where one was given from outside.
pub open spec fn underlying(error: CommandErrorView) -> Option<Seq<char>> {
    match error {
        CommandErrorView::FileRead { file, cause } => Some(cause),
        CommandErrorView::Store(failure) => Some(failure.cause),
        _ => None,
    }
}

/// Whether the error was found in the command line itself, before any
/// request to the store.
pub open spec fn is_usage(error: CommandErrorView) -> bool {
    error is ConflictingInput || error is InvalidNodeType
}

/// The view of a reason that may be absent.
pub open spec fn reason_view(reason: Option<String>) -> Option<Seq<char>> {
    match reason {
        Some(text) => Some(text@),
        None => None,
    }
}

/// `label` followed by `value`.
pub fn labelled(label: &str, value: &str) -> (line: String)
    ensures
        line@ == label@ + value@,
{
    let mut line = String::from_str(label);
    line.append(value);
    line
}

impl Failure {
    /// The headline that reports this failure.
    pub fn headline(&self) -> (line: String)
        ensures
            line@ == failure_headline(self@),
    {
        let label = match self.operation {
            Operation::List => "无法列出路径: ",
            Operation::Stat => "无法获取节点状态: ",
            Operation::Read => "无法获取节点数据: ",
            Operation::Create => "无法创建节点: ",
            Operation::Write => "无法设置节点数据: ",
            Operation::Delete => "无法删除节点: ",
        };
        labelled(label, self.path.as_str())
    }
}

impl CommandError {
    /// The headline that reports this error.
    pub fn message(&self) -> (line: String)
        ensures
            line@ == headline(self@),
    {
        match self {
            CommandError::ConflictingInput => String::from_str(
                "不能同时指定 --data 和 --file 参数",
            ),
            CommandError::InvalidNodeType(token) => {
                let mut line = labelled("无效的节点类型: ", token.as_str());
                line.append(
                    ". 支持的类型: persistent(p), ephemeral(e), persistent-sequential(ps), ephemeral-sequential(es)",
                );
                line
            },
            CommandError::FileRead { file, cause } => labelled("无法读取文件: ", file.as_str()),
            CommandError::NodeMissing(path) => labelled("节点不存在: ", path.as_str()),
            CommandError::Store(failure) => failure.headline(),
        }
    }

    /// The underlying reason, where one was given from outside.
    pub fn cause(&self) -> (reason: Option<String>)
        ensures
            reason_view(reason) == underlying(self@),
    {
        match self {
            CommandError::FileRead { file, cause } => Some(cause.clone()),
            CommandError::Store(failure) => Some(failure.cause.reason.clone()),
            _ => None,
        }
    }

    /// Whether the error lies in the command line itself.
    pub fn is_usage_error(&self) -> (usage: bool)
        ensures
            usage == is_usage(self@),
    {
        match self {
            CommandError::ConflictingInput => true,
            CommandError::InvalidNodeType(_) => true,
            _ => false,
        }
    }
}

} // verus!
