//! Removal of a whole subtree, one request at a time.
//!
//! The store deletes only nodes without children, so a subtree is removed
//! bottom-up: a node's children are listed, each child's subtree is removed
//! in the order the store listed them, and only then the node itself. The
//! walker keeps the nodes still to be handled on a stack and never talks to
//! the store: it names the next request, is told the answer, and moves on.

use vstd::prelude::*;
use crate::path::{join_path, joined};
use crate::store::{
    failure_view, request_view, texts, Failure, FailureView, Operation, Request, RequestView,
    StoreError,
};

verus! {

/// A node still to be handled.
#[derive(Clone, Debug, PartialEq, Eq)]
pub struct Frame {
    /// The node's path.
    pub path: String,
    /// Whether the node's children have been put on the stack already.
    pub expanded: bool,
}

/// A [`Frame`] as mathematical text.
pub struct FrameView {
    pub path: Seq<char>,
    pub expanded: bool,
}

impl View for Frame {
    type V = FrameView;

    open spec fn view(&self) -> FrameView {
        FrameView { path: self.path@, expanded: self.expanded }
    }
}

/// The views of a stack of frames, bottom first.
pub open spec fn frames_view(frames: Seq<Frame>) -> Seq<FrameView> {
    Seq::new(frames.len(), |i: int| frames[i]@)
}

/// The store's answer to the walker's last request.
#[derive(Clone, Debug, PartialEq, Eq)]
pub enum Reply {
    /// The children of the listed node, in the store's order.
    Children(Vec<String>),
    /// The node was deleted.
    Deleted,
    /// The request failed.
    Failed(StoreError),
}

/// A [`Reply`] as mathematical text.
pub enum ReplyView {
    Children(Seq<Seq<char>>),
    Deleted,
    Failed(Seq<char>),
}

impl View for Reply {
    type V = ReplyView;

    open spec fn view(&self) -> ReplyView {
        match self {
            Reply::Children(names) => ReplyView::Children(texts(names@)),
            Reply::Deleted => ReplyView::Deleted,
            Reply::Failed(error) => ReplyView::Failed(error@),
        }
    }
}

/// The state of a walk as mathematical values.
pub struct WalkerView {
    /// Whether failures are downgraded to warnings.
    pub force: bool,
    /// The nodes still to be handled; the last one is handled next.
    pub stack: Seq<FrameView>,
    /// The failure that ended the walk, if one did.
    pub failure: Option<FailureView>,
}

/// The state in which a walk over `root` begins.
pub open spec fn start(root: Seq<char>, force: bool) -> WalkerView {
    WalkerView { force, stack: seq![FrameView { path: root, expanded: false }], failure: None }
}

/// Whether the walk still has a request to make.
pub open spec fn active(w: WalkerView) -> bool {
    w.failure is None && w.stack.len() > 0
}

/// The request that the walk makes next: the children of the top node if
/// they are not known yet, else the deletion of that node, whatever its
/// version.
pub open spec fn pending_spec(w: WalkerView) -> Option<RequestView> {
    if !active(w) {
        None
    } else if w.stack.last().expanded {
        Some(RequestView::Delete { path: w.stack.last().path, version: None })
    } else {
        Some(RequestView::List(w.stack.last().path))
    }
}

/// The frames of the children `names` of `parent`, the first child on top.
pub open spec fn child_frames(parent: Seq<char>, names: Seq<Seq<char>>) -> Seq<FrameView> {
    Seq::new(
        names.len(),
        |i: int| FrameView { path: joined(parent, names[names.len() - 1 - i]), expanded: false },
    )
}

/// The failure that the reason `cause` means for the pending request of `w`.
pub open spec fn failure_of(w: WalkerView, cause: Seq<char>) -> FailureView {
    FailureView {
        operation: if w.stack.last().expanded {
            Operation::Delete
        } else {
            Operation::List
        },
        path: w.stack.last().path,
        cause,
    }
}

/// The state after `reply`, and the warning that the reply calls for.
///
/// A reply that does not answer the pending request, and any reply to a walk
/// that has ended, changes nothing.
pub open spec fn advance_spec(w: WalkerView, reply: ReplyView) -> (WalkerView, Option<FailureView>) {
    if !active(w) {
        (w, None)
    } else {
        let top = w.stack.last();
        let rest = w.stack.drop_last();
        let marked = rest.push(FrameView { path: top.path, expanded: true });
        match reply {
            ReplyView::Children(names) => {
                if top.expanded {
                    (w, None)
                } else {
                    (WalkerView { stack: marked + child_frames(top.path, names), ..w }, None)
                }
            },
            ReplyView::Deleted => {
                if top.expanded {
                    (WalkerView { stack: rest, ..w }, None)
                } else {
                    (w, None)
                }
            },
            ReplyView::Failed(cause) => {
                if !w.force {
                    (WalkerView { failure: Some(failure_of(w, cause)), ..w }, None)
                } else if top.expanded {
                    (WalkerView { stack: rest, ..w }, Some(failure_of(w, cause)))
                } else {
                    (WalkerView { stack: marked, ..w }, Some(failure_of(w, cause)))
                }
            },
        }
    }
}

/// The result of the walk in state `w`: the failure that ended it, if any.
pub open spec fn result_spec(w: WalkerView) -> Result<(), FailureView> {
    match w.failure {
        Some(failure) => Err(failure),
        None => Ok(()),
    }
}

/// The view of a walk's result.
pub open spec fn result_view(result: Result<(), Failure>) -> Result<(), FailureView> {
    match result {
        Ok(_) => Ok(()),
        Err(failure) => Err(failure@),
    }
}

/// A walk over one subtree.
pub struct Walker {
    force: bool,
    stack: Vec<Frame>,
    failure: Option<Failure>,
}

impl View for Walker {
    type V = WalkerView;

    closed spec fn view(&self) -> WalkerView {
        WalkerView {
            force: self.force,
            stack: frames_view(self.stack@),
            failure: failure_view(self.failure),
        }
    }
}

impl Walker {
    /// Begins the removal of the subtree at `root`.
    pub fn new(root: &str, force: bool) -> (walker: Walker)
        ensures
            walker@ == start(root@, force),
    {
        let mut stack: Vec<Frame> = Vec::new();
        stack.push(Frame { path: root.to_owned(), expanded: false });
        let walker = Walker { force, stack, failure: None };
        assert(walker@.stack =~= start(root@, force).stack);
        walker
    }

    /// Whether failures are downgraded to warnings.
    pub fn force(&self) -> (force: bool)
        ensures
            force == self@.force,
    {
        self.force
    }

    /// The request to send to the store next, or `None` when the walk has ended.
    pub fn pending(&self) -> (request: Option<Request>)
        ensures
            request_view(request) == pending_spec(self@),
    {
        if self.failure.is_some() || self.stack.len() == 0 {
            return None;
        }
        let top = &self.stack[self.stack.len() - 1];
        if top.expanded {
            Some(Request::Delete { path: top.path.clone(), version: None })
        } else {
            Some(Request::List(top.path.clone()))
        }
    }

    /// Takes the store's answer to the pending request and returns the
    /// warning to print, if the answer was a failure that force mode lets pass.
    pub fn advance(&mut self, reply: Reply) -> (warning: Option<Failure>)
        ensures
            (final(self)@, failure_view(warning)) == advance_spec(old(self)@, reply@),
    {
        if self.failure.is_some() || self.stack.len() == 0 {
            return None;
        }
        let ghost before = self@;
        let ghost rest = before.stack.drop_last();
        let top = &self.stack[self.stack.len() - 1];
        let expanded = top.expanded;
        let parent = top.path.clone();
        let ghost marked = rest.push(FrameView { path: parent@, expanded: true });
        match reply {
            Reply::Children(names) => {
                if expanded {
                    return None;
                }
                let last = self.stack.len() - 1;
                self.stack[last].expanded = true;
                let count = names.len();
                let mut i: usize = count;
                while i > 0
                    invariant
                        i <= count,
                        count == names.len(),
                        self.force == before.force,
                        failure_view(self.failure) == before.failure,
                        frames_view(self.stack@) =~= marked + child_frames(
                            parent@,
                            texts(names@),
                        ).subrange(0, count - i),
                    decreases i,
                {
                    i -= 1;
                    let child = join_path(parent.as_str(), names[i].as_str());
                    let ghost shown = frames_view(self.stack@);
                    self.stack.push(Frame { path: child, expanded: false });
                    proof {
                        let all = child_frames(parent@, texts(names@));
                        let k = count - i - 1;
                        assert(frames_view(self.stack@) =~= shown.push(all[k]));
                    }
                }
                assert(child_frames(parent@, texts(names@)).subrange(0, count as int)
                    =~= child_frames(parent@, texts(names@)));
                None
            },
            Reply::Deleted => {
                if expanded {
                    self.stack.pop();
                    assert(frames_view(self.stack@) =~= rest);
                }
                None
            },
            Reply::Failed(cause) => {
                let operation = if expanded {
                    Operation::Delete
                } else {
                    Operation::List
                };
                let failure = Failure { operation, path: parent, cause };
                if !self.force {
                    self.failure = Some(failure);
                    None
                } else if expanded {
                    self.stack.pop();
                    assert(frames_view(self.stack@) =~= rest);
                    Some(failure)
                } else {
                    let last = self.stack.len() - 1;
                    self.stack[last].expanded = true;
                    assert(frames_view(self.stack@) =~= marked);
                    Some(failure)
                }
            },
        }
    }

    /// Ends the walk and gives its result: the failure that stopped it, or
    /// success.
    pub fn into_result(self) -> (result: Result<(), Failure>)
        ensures
            result_view(result) == result_spec(self@),
    {
        match self.failure {
            Some(failure) => Err(failure),
            None => Ok(()),
        }
    }
}

/// The state of a walk that began in `w` after the replies `replies`, taken
/// in order.
pub open spec fn run(w: WalkerView, replies: Seq<ReplyView>) -> WalkerView
    decreases replies.len(),
{
    if replies.len() == 0 {
        w
    } else {
        advance_spec(run(w, replies.drop_last()), replies.last()).0
    }
}

/// A walk in force mode never fails: whatever the store answers, and however
/// many answers there are, no failure is recorded and the result is success.
pub proof fn lemma_force_never_fails(w: WalkerView, replies: Seq<ReplyView>)
    requires
        w.force,
        w.failure is None,
    ensures
        run(w, replies).force,
        run(w, replies).failure is None,
        result_spec(run(w, replies)) == Ok::<(), FailureView>(()),
    decreases replies.len(),
{
    if replies.len() > 0 {
        lemma_force_never_fails(w, replies.drop_last());
    }
}

/// Removing a subtree in force mode is idempotent: a second removal of the
/// same subtree begins as the first did and succeeds as the first did,
/// whatever the store answered the first time and answers now.
pub proof fn lemma_force_removal_is_idempotent(
    root: Seq<char>,
    first: Seq<ReplyView>,
    second: Seq<ReplyView>,
)
    ensures
        result_spec(run(start(root, true), first)) == Ok::<(), FailureView>(()),
        result_spec(run(start(root, true), second)) == Ok::<(), FailureView>(()),
{
    lemma_force_never_fails(start(root, true), first);
    lemma_force_never_fails(start(root, true), second);
}

/// Removing, in force mode, a subtree that is no longer there: the listing
/// of the root fails, its deletion is tried all the same and fails too, and
/// with that the walk has ended in success, with nothing left to ask.
pub proof fn lemma_force_removal_of_missing_subtree(
    root: Seq<char>,
    list_cause: Seq<char>,
    delete_cause: Seq<char>,
)
    ensures
        ({
            let begun = start(root, true);
            let listed = advance_spec(begun, ReplyView::Failed(list_cause));
            let deleted = advance_spec(listed.0, ReplyView::Failed(delete_cause));
            &&& pending_spec(begun) == Some(RequestView::List(root))
            &&& listed.1 == Some(
                FailureView { operation: Operation::List, path: root, cause: list_cause },
            )
            &&& pending_spec(listed.0) == Some(RequestView::Delete { path: root, version: None })
            &&& deleted.1 == Some(
                FailureView { operation: Operation::Delete, path: root, cause: delete_cause },
            )
            &&& pending_spec(deleted.0) is None
            &&& result_spec(deleted.0) == Ok::<(), FailureView>(())
        }),
{
}

/// A walk that has ended stays as it is, whatever replies still come in.
pub proof fn lemma_ended_walk_is_final(w: WalkerView, replies: Seq<ReplyView>)
    requires
        !active(w),
    ensures
        run(w, replies) == w,
    decreases replies.len(),
{
    if replies.len() > 0 {
        lemma_ended_walk_is_final(w, replies.drop_last());
    }
}

/// Without force a walk is fail-fast: the first failed request ends it. The
/// failure names that request and its node, the result of the walk is that
/// failure, no further request is made, and the nodes that were waiting on
/// the stack, among them every ancestor of the failed node, are left as they
/// are. Nothing that was deleted before is touched again.
pub proof fn lemma_fail_fast(w: WalkerView, cause: Seq<char>, later: Seq<ReplyView>)
    requires
        !w.force,
        active(w),
    ensures
        ({
            let stopped = advance_spec(w, ReplyView::Failed(cause));
            &&& stopped.1 is None
            &&& stopped.0.failure == Some(failure_of(w, cause))
            &&& stopped.0.stack == w.stack
            &&& pending_spec(stopped.0) is None
            &&& run(stopped.0, later) == stopped.0
            &&& result_spec(run(stopped.0, later)) == Err::<(), FailureView>(failure_of(w, cause))
        }),
{
    lemma_ended_walk_is_final(advance_spec(w, ReplyView::Failed(cause)).0, later);
}

} // verus!
