//! What the store hands back, as plain values: node metadata, refusals, and
//! a refusal together with the request it answered.

use vstd::prelude::*;
use crate::node_type::CreateMode;

verus! {

/// The metadata that the store keeps for one node.
#[derive(Clone, Copy, Debug, PartialEq, Eq)]
pub struct Stat {
    /// Transaction that created the node.
    pub czxid: i64,
    /// Transaction that last changed the node's payload.
    pub mzxid: i64,
    /// Transaction that last added or removed a child.
    pub pzxid: i64,
    /// Creation time, in milliseconds since the epoch.
    pub ctime: i64,
    /// Time of the last payload change, in milliseconds since the epoch.
    pub mtime: i64,
    /// Number of payload writes.
    pub version: i32,
    /// Number of child additions and removals.
    pub cversion: i32,
    /// Number of access-list changes.
    pub aversion: i32,
    /// Owning session of an ephemeral node, zero otherwise.
    pub ephemeral_owner: i64,
    /// Length of the payload in bytes.
    pub data_length: i32,
    /// Number of children.
    pub num_children: i32,
}

/// A request that the store refused or could not answer, with its reason as text.
#[derive(Clone, Debug, PartialEq, Eq)]
pub struct StoreError {
    pub reason: String,
}

impl View for StoreError {
    type V = Seq<char>;

    open spec fn view(&self) -> Seq<char> {
        self.reason@
    }
}

/// The kinds of request that a command sends to the store.
#[derive(Clone, Copy, Debug, PartialEq, Eq)]
pub enum Operation {
    List,
    Stat,
    Read,
    Create,
    Write,
    Delete,
}

/// A refused request: what was asked, of which node, and the store's reason.
#[derive(Clone, Debug, PartialEq, Eq)]
pub struct Failure {
    pub operation: Operation,
    pub path: String,
    pub cause: StoreError,
}

/// A [`Failure`] as mathematical text.
pub struct FailureView {
    pub operation: Operation,
    pub path: Seq<char>,
    pub cause: Seq<char>,
}

impl View for Failure {
    type V = FailureView;

    open spec fn view(&self) -> FailureView {
        FailureView { operation: self.operation, path: self.path@, cause: self.cause@ }
    }
}

/// The view of a failure that may be absent.
pub open spec fn failure_view(failure: Option<Failure>) -> Option<FailureView> {
    match failure {
        Some(f) => Some(f@),
        None => None,
    }
}

/// The answer to a metadata query for one node.
#[derive(Clone, Debug, PartialEq, Eq)]
pub enum StatReply {
    /// The node exists.
    Found(Stat),
    /// The store answered that there is no such node.
    Missing,
    /// The query itself failed.
    Failed(StoreError),
}

/// A [`StatReply`] as mathematical values.
pub enum StatReplyView {
    Found(Stat),
    Missing,
    Failed(Seq<char>),
}

impl View for StatReply {
    type V = StatReplyView;

    open spec fn view(&self) -> StatReplyView {
        match self {
            StatReply::Found(stat) => StatReplyView::Found(*stat),
            StatReply::Missing => StatReplyView::Missing,
            StatReply::Failed(error) => StatReplyView::Failed(error@),
        }
    }
}

/// A request to the store. A version of `None` asks for no version check:
/// the write or deletion applies whatever the node's version is.
#[derive(Clone, Debug, PartialEq, Eq)]
pub enum Request {
    /// List the children of the node.
    List(String),
    /// Fetch the node's metadata.
    Stat(String),
    /// Fetch the node's payload.
    Read(String),
    /// Create the node, open to everyone, with this payload and mode.
    Create { path: String, data: Vec<u8>, mode: CreateMode },
    /// Replace the node's payload.
    Write { path: String, data: Vec<u8>, version: Option<i32> },
    /// Delete the node.
    Delete { path: String, version: Option<i32> },
}

/// A [`Request`] as mathematical values.
pub enum RequestView {
    List(Seq<char>),
    Stat(Seq<char>),
    Read(Seq<char>),
    Create { path: Seq<char>, data: Seq<u8>, mode: CreateMode },
    Write { path: Seq<char>, data: Seq<u8>, version: Option<i32> },
    Delete { path: Seq<char>, version: Option<i32> },
}

impl View for Request {
    type V = RequestView;

    open spec fn view(&self) -> RequestView {
        match self {
            Request::List(path) => RequestView::List(path@),
            Request::Stat(path) => RequestView::Stat(path@),
            Request::Read(path) => RequestView::Read(path@),
            Request::Create { path, data, mode } => RequestView::Create {
                path: path@,
                data: data@,
                mode: *mode,
            },
            Request::Write { path, data, version } => RequestView::Write {
                path: path@,
                data: data@,
                version: *version,
            },
            Request::Delete { path, version } => RequestView::Delete {
                path: path@,
                version: *version,
            },
        }
    }
}

/// The view of a request that may be absent.
pub open spec fn request_view(request: Option<Request>) -> Option<RequestView> {
    match request {
        Some(r) => Some(r@),
        None => None,
    }
}

/// The texts of a sequence of strings.
pub open spec fn texts(strings: Seq<String>) -> Seq<Seq<char>> {
    Seq::new(strings.len(), |i: int| strings[i]@)
}

} // verus!
