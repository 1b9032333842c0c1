//! The verbs of the command line: what each asks of the store, and what it
//! makes of the answer.
//!
//! No function here talks to the store. A command names its request, the
//! caller sends it, and the command turns the reply into the lines to print
//! or into the error that ends the program.

use vstd::prelude::*;
use vstd::string::*;
use crate::error::{failure_headline, labelled, CommandError, CommandErrorView};
use crate::node_type::{created_path, created_path_spec, CreateMode};
use crate::numeral::{decimal, push_decimal_u64};
use crate::report::{
    deletion_warning, deletion_warning_spec, payload_lines, payload_lines_spec, stat_lines,
    stat_lines_spec,
};
use crate::store::{
    texts, Failure, FailureView, Operation, Request, RequestView, Stat, StoreError,
};
use crate::walker::{start, Walker};

verus! {

/// The error for the request `operation` on `path` that the store refused.
pub fn store_failure(operation: Operation, path: &str, cause: StoreError) -> (error: CommandError)
    ensures
        error@ == CommandErrorView::Store(FailureView { operation, path: path@, cause: cause@ }),
{
    CommandError::Store(Failure { operation, path: path.to_owned(), cause })
}

/// `ls` asks for the children of the node.
pub fn ls_request(path: &str) -> (request: Request)
    ensures
        request@ == RequestView::List(path@),
{
    Request::List(path.to_owned())
}

/// `ls` prints the names of the children, one per line, exactly as the store
/// listed them: the same names in the same order, none added, dropped or
/// sorted. A failed listing is the error that names the path.
pub fn ls_command(path: &str, reply: Result<Vec<String>, StoreError>) -> (result: Result<
    Vec<String>,
    CommandError,
>)
    ensures
        match reply {
            Ok(children) => result matches Ok(lines) && texts(lines@) == texts(children@),
            Err(cause) => result matches Err(error) && error@ == CommandErrorView::Store(
                FailureView { operation: Operation::List, path: path@, cause: cause@ },
            ),
        },
{
    match reply {
        Ok(children) => Ok(children),
        Err(cause) => Err(store_failure(Operation::List, path, cause)),
    }
}

/// `stat` and `dir` ask for the metadata of the node.
pub fn stat_request(path: &str) -> (request: Request)
    ensures
        request@ == RequestView::Stat(path@),
{
    Request::Stat(path.to_owned())
}

/// The metadata of a node that has to exist: a node that is not there and a
/// failed query are both errors that name the path.
pub fn existing_stat(path: &str, reply: Result<Option<Stat>, StoreError>) -> (result: Result<
    Stat,
    CommandError,
>)
    ensures
        match reply {
            Ok(Some(stat)) => result == Ok::<Stat, CommandError>(stat),
            Ok(None) => result matches Err(error) && error@ == CommandErrorView::NodeMissing(
                path@,
            ),
            Err(cause) => result matches Err(error) && error@ == CommandErrorView::Store(
                FailureView { operation: Operation::Stat, path: path@, cause: cause@ },
            ),
        },
{
    match reply {
        Ok(Some(stat)) => Ok(stat),
        Ok(None) => Err(CommandError::NodeMissing(path.to_owned())),
        Err(cause) => Err(store_failure(Operation::Stat, path, cause)),
    }
}

/// `stat` prints every metadata field of the node.
pub fn stat_command(path: &str, reply: Result<Option<Stat>, StoreError>) -> (result: Result<
    Vec<String>,
    CommandError,
>)
    ensures
        match reply {
            Ok(Some(stat)) => result matches Ok(lines) && texts(lines@) == stat_lines_spec(
                path@,
                stat,
            ),
            Ok(None) => result matches Err(error) && error@ == CommandErrorView::NodeMissing(
                path@,
            ),
            Err(cause) => result matches Err(error) && error@ == CommandErrorView::Store(
                FailureView { operation: Operation::Stat, path: path@, cause: cause@ },
            ),
        },
{
    match existing_stat(path, reply) {
        Ok(stat) => Ok(stat_lines(path, &stat)),
        Err(error) => Err(error),
    }
}

/// `cat` asks for the payload of the node.
pub fn cat_request(path: &str) -> (request: Request)
    ensures
        request@ == RequestView::Read(path@),
{
    Request::Read(path.to_owned())
}

/// `cat` prints the payload: as text where it is text, else as a
/// hexadecimal dump.
pub fn cat_command(path: &str, reply: Result<Vec<u8>, StoreError>) -> (result: Result<
    Vec<String>,
    CommandError,
>)
    ensures
        match reply {
            Ok(data) => result matches Ok(lines) && texts(lines@) == payload_lines_spec(data@),
            Err(cause) => result matches Err(error) && error@ == CommandErrorView::Store(
                FailureView { operation: Operation::Read, path: path@, cause: cause@ },
            ),
        },
{
    match reply {
        Ok(data) => Ok(payload_lines(&data)),
        Err(cause) => Err(store_failure(Operation::Read, path, cause)),
    }
}

/// The line that reports a deletion.
pub open spec fn deleted_line_spec(path: Seq<char>) -> Seq<char> {
    "成功删除: "@ + path
}

/// What `rm` does first.
pub enum Removal {
    /// Send this one request.
    Single(Request),
    /// Walk the subtree.
    Subtree(Walker),
}

/// `rm` deletes the one node, whatever its version, or with `recursive` walks
/// the subtree under the same force flag.
pub fn rm_plan(path: &str, recursive: bool, force: bool) -> (plan: Removal)
    ensures
        match plan {
            Removal::Single(request) => !recursive && request@ == (RequestView::Delete {
                path: path@,
                version: None,
            }),
            Removal::Subtree(walker) => recursive && walker@ == start(path@, force),
        },
{
    if recursive {
        Removal::Subtree(Walker::new(path, force))
    } else {
        Removal::Single(Request::Delete { path: path.to_owned(), version: None })
    }
}

/// What `rm` of a single node prints. A refused deletion is an error, except
/// in force mode, where it is a warning and the command succeeds.
pub fn rm_command(path: &str, force: bool, reply: Result<(), StoreError>) -> (result: Result<
    String,
    CommandError,
>)
    ensures
        match reply {
            Ok(_) => result matches Ok(line) && line@ == deleted_line_spec(path@),
            Err(cause) => if force {
                result matches Ok(line) && line@ == deletion_warning_spec(path@, cause@)
            } else {
                result matches Err(error) && error@ == CommandErrorView::Store(
                    FailureView { operation: Operation::Delete, path: path@, cause: cause@ },
                )
            },
        },
{
    match reply {
        Ok(_) => Ok(labelled("成功删除: ", path)),
        Err(cause) => {
            if force {
                Ok(deletion_warning(path, cause.reason.as_str()))
            } else {
                Err(store_failure(Operation::Delete, path, cause))
            }
        },
    }
}

/// What `rm` of a subtree prints once the walk has ended with `outcome`:
/// the same framing as for a single node. The failure of a walk names the
/// node and request that stopped it, and so does the warning made of it.
pub fn rm_recursive(path: &str, force: bool, outcome: Result<(), Failure>) -> (result: Result<
    String,
    CommandError,
>)
    ensures
        match outcome {
            Ok(_) => result matches Ok(line) && line@ == deleted_line_spec(path@),
            Err(failure) => if force {
                result matches Ok(line) && line@ == deletion_warning_spec(
                    path@,
                    failure_headline(failure@),
                )
            } else {
                result matches Err(error) && error@ == CommandErrorView::Store(failure@)
            },
        },
{
    match outcome {
        Ok(_) => Ok(labelled("成功删除: ", path)),
        Err(failure) => {
            if force {
                let reason = failure.headline();
                Ok(deletion_warning(path, reason.as_str()))
            } else {
                Err(CommandError::Store(failure))
            }
        },
    }
}

/// The line that tells how many bytes were written.
pub open spec fn written_line_spec(len: nat) -> Seq<char> {
    "写入数据: "@ + decimal(len as int) + " bytes"@
}

/// The line that tells how many bytes were written.
pub fn written_line(len: usize) -> (line: String)
    ensures
        line@ == written_line_spec(len as nat),
{
    let mut line = String::from_str("写入数据: ");
    push_decimal_u64(&mut line, len as u64);
    line.append(" bytes");
    line
}

/// `create` asks for a new node with the payload and the creation mode.
pub fn create_request(path: &str, data: Vec<u8>, mode: CreateMode) -> (request: Request)
    ensures
        request@ == (RequestView::Create { path: path@, data: data@, mode }),
{
    Request::Create { path: path.to_owned(), data, mode }
}

/// One entry of an access list of the store's client.
#[verifier::external_type_specification]
#[verifier::external_body]
pub struct ExAcl(zookeeper_client::Acl);

/// An access list as the store's client takes it.
#[verifier::external_type_specification]
#[verifier::external_body]
pub struct ExAcls<'a>(zookeeper_client::Acls<'a>);

/// The options of a creation request as the store's client takes them.
#[verifier::external_type_specification]
#[verifier::external_body]
pub struct ExCreateOptions<'a>(zookeeper_client::CreateOptions<'a>);

/// Whether an access list of the store's client is the open one: the single
/// entry that gives everyone every permission.
pub uninterp spec fn acls_open(acls: zookeeper_client::Acls<'static>) -> bool;

/// The creation mode that options of the store's client hold, as the mode of
/// the same name here.
pub uninterp spec fn options_mode(options: zookeeper_client::CreateOptions<'static>) -> CreateMode;

/// Whether the access list that options of the store's client hold is the
/// open one.
pub uninterp spec fn options_open(options: zookeeper_client::CreateOptions<'static>) -> bool;

/// The open access list.
///
/// Calls `zookeeper_client::Acls::anyone_all`, which returns the list that
/// gives everyone every permission. The contract claims that the list it
/// returns is that open list.
#[verifier::external_body]
fn anyone_all() -> (acls: zookeeper_client::Acls<'static>)
    ensures
        acls_open(acls),
{
    zookeeper_client::Acls::anyone_all()
}

/// The creation options for `mode` under the access list `acls`.
///
/// Calls `zookeeper_client::CreateMode::with_acls` on the client's mode of
/// the same name; it puts the mode and the list into one value and sets no
/// time to live. The contract claims that the options hold that mode, and
/// that the list they hold is open exactly if `acls` is.
#[verifier::external_body]
fn with_acls(
    mode: CreateMode,
    acls: zookeeper_client::Acls<'static>,
) -> (options: zookeeper_client::CreateOptions<'static>)
    ensures
        options_mode(options) == mode,
        options_open(options) == acls_open(acls),
{
    let outside = match mode {
        CreateMode::Persistent => zookeeper_client::CreateMode::Persistent,
        CreateMode::Ephemeral => zookeeper_client::CreateMode::Ephemeral,
        CreateMode::PersistentSequential => zookeeper_client::CreateMode::PersistentSequential,
        CreateMode::EphemeralSequential => zookeeper_client::CreateMode::EphemeralSequential,
    };
    outside.with_acls(acls)
}

/// The options with which a request goes out. A creation goes out with the
/// mode that the request names and with the open access list; no other
/// request takes options.
pub fn create_options(request: &Request) -> (options: Option<
    zookeeper_client::CreateOptions<'static>,
>)
    ensures
        match request@ {
            RequestView::Create { path, data, mode } => options matches Some(held)
                && options_mode(held) == mode && options_open(held),
            _ => options is None,
        },
{
    match request {
        Request::Create { path, data, mode } => Some(with_acls(*mode, anyone_all())),
        _ => None,
    }
}

/// What a successful creation prints: the path that the node really has,
/// and the payload's length unless the payload is empty.
pub open spec fn created_lines_spec(
    path: Seq<char>,
    mode: CreateMode,
    sequence: int,
    len: nat,
) -> Seq<Seq<char>> {
    let first = "成功创建节点: "@ + created_path_spec(path, mode, sequence);
    if len > 0 {
        seq![first, written_line_spec(len)]
    } else {
        seq![first]
    }
}

/// What `create` prints. `reply` holds the sequence number that the store
/// sent back; it counts only where the mode is a sequential one.
pub fn create_command(
    path: &str,
    mode: CreateMode,
    len: usize,
    reply: Result<i64, StoreError>,
) -> (result: Result<Vec<String>, CommandError>)
    ensures
        match reply {
            Ok(sequence) => result matches Ok(lines) && texts(lines@) == created_lines_spec(
                path@,
                mode,
                sequence as int,
                len as nat,
            ),
            Err(cause) => result matches Err(error) && error@ == CommandErrorView::Store(
                FailureView { operation: Operation::Create, path: path@, cause: cause@ },
            ),
        },
{
    match reply {
        Ok(sequence) => {
            let actual = created_path(path, mode, sequence);
            let mut lines: Vec<String> = Vec::new();
            lines.push(labelled("成功创建节点: ", actual.as_str()));
            if len > 0 {
                lines.push(written_line(len));
            }
            assert(texts(lines@) =~= created_lines_spec(
                path@,
                mode,
                sequence as int,
                len as nat,
            ));
            Ok(lines)
        },
        Err(cause) => Err(store_failure(Operation::Create, path, cause)),
    }
}

/// `set` asks to replace the payload, whatever the node's version.
pub fn set_request(path: &str, data: Vec<u8>) -> (request: Request)
    ensures
        request@ == (RequestView::Write { path: path@, data: data@, version: None }),
{
    Request::Write { path: path.to_owned(), data, version: None }
}

/// What a successful write prints.
pub open spec fn written_lines_spec(path: Seq<char>, len: nat) -> Seq<Seq<char>> {
    seq!["成功设置节点数据: "@ + path, written_line_spec(len)]
}

/// What `set` prints.
pub fn set_command(path: &str, len: usize, reply: Result<(), StoreError>) -> (result: Result<
    Vec<String>,
    CommandError,
>)
    ensures
        match reply {
            Ok(_) => result matches Ok(lines) && texts(lines@) == written_lines_spec(
                path@,
                len as nat,
            ),
            Err(cause) => result matches Err(error) && error@ == CommandErrorView::Store(
                FailureView { operation: Operation::Write, path: path@, cause: cause@ },
            ),
        },
{
    match reply {
        Ok(_) => {
            let mut lines: Vec<String> = Vec::new();
            lines.push(labelled("成功设置节点数据: ", path));
            lines.push(written_line(len));
            Ok(lines)
        },
        Err(cause) => Err(store_failure(Operation::Write, path, cause)),
    }
}

} // verus!
