//! The detailed listing, one request at a time.
//!
//! `dir` lists the children of a node, asks for the node's own metadata and
//! then for that of every child. The node itself has to exist; a child whose
//! metadata cannot be had is marked in its line and the listing goes on.

use vstd::prelude::*;
use crate::commands::{existing_stat, ls_command};
use crate::error::{CommandError, CommandErrorView};
use crate::path::{join_path, joined};
use crate::report::{dir_lines, dir_lines_spec, entries_view, DirEntry, DirEntryView};
use crate::store::{
    request_view, texts, FailureView, Operation, Request, RequestView, Stat, StatReply,
    StatReplyView, StoreError,
};

verus! {

/// The answer to a metadata query as mathematical values.
pub type AnswerView = Result<Option<Stat>, Seq<char>>;

/// The view of the answer to a metadata query.
pub open spec fn answer_view(reply: Result<Option<Stat>, StoreError>) -> AnswerView {
    match reply {
        Ok(found) => Ok(found),
        Err(cause) => Err(cause@),
    }
}

/// What the listing keeps of the answer for a child.
pub open spec fn recorded(answer: AnswerView) -> StatReplyView {
    match answer {
        Ok(Some(stat)) => StatReplyView::Found(stat),
        Ok(None) => StatReplyView::Missing,
        Err(cause) => StatReplyView::Failed(cause),
    }
}

/// The state of a detailed listing as mathematical values.
pub struct DirListingView {
    /// The listed node.
    pub path: Seq<char>,
    /// Its children, in the store's order.
    pub children: Seq<Seq<char>>,
    /// Its metadata, once known.
    pub root: Option<Stat>,
    /// The children answered for so far, in the same order.
    pub entries: Seq<DirEntryView>,
}

/// The state of a listing of `path` whose children have just been listed.
pub open spec fn listed(path: Seq<char>, children: Seq<Seq<char>>) -> DirListingView {
    DirListingView { path, children, root: None, entries: Seq::empty() }
}

/// The request that the listing makes next: the metadata of the node itself,
/// then that of each child by its full path, in order; none after the last.
pub open spec fn dir_pending_spec(l: DirListingView) -> Option<RequestView> {
    if l.root is None {
        Some(RequestView::Stat(l.path))
    } else if l.entries.len() < l.children.len() {
        Some(RequestView::Stat(joined(l.path, l.children[l.entries.len() as int])))
    } else {
        None
    }
}

/// The state after the answer to the pending request. Only the answer for
/// the node itself can end the listing: the node has to exist. The answer
/// for a child is recorded whatever it is. With no request pending, nothing
/// changes.
pub open spec fn dir_advance_spec(l: DirListingView, answer: AnswerView) -> Result<
    DirListingView,
    CommandErrorView,
> {
    if l.root is None {
        match answer {
            Ok(Some(stat)) => Ok(DirListingView { root: Some(stat), ..l }),
            Ok(None) => Err(CommandErrorView::NodeMissing(l.path)),
            Err(cause) => Err(
                CommandErrorView::Store(
                    FailureView { operation: Operation::Stat, path: l.path, cause },
                ),
            ),
        }
    } else if l.entries.len() < l.children.len() {
        Ok(
            DirListingView {
                entries: l.entries.push(
                    DirEntryView {
                        name: l.children[l.entries.len() as int],
                        stat: recorded(answer),
                    },
                ),
                ..l
            },
        )
    } else {
        Ok(l)
    }
}

/// The lines of the listing as far as it has come; none before the node's
/// own metadata is known.
pub open spec fn dir_output_spec(l: DirListingView) -> Seq<Seq<char>> {
    match l.root {
        Some(stat) => dir_lines_spec(l.path, stat, l.entries),
        None => Seq::empty(),
    }
}

/// A detailed listing under way.
pub struct DirListing {
    path: String,
    children: Vec<String>,
    root: Option<Stat>,
    entries: Vec<DirEntry>,
}

impl View for DirListing {
    type V = DirListingView;

    closed spec fn view(&self) -> DirListingView {
        DirListingView {
            path: self.path@,
            children: texts(self.children@),
            root: self.root,
            entries: entries_view(self.entries@),
        }
    }
}

/// The view of a listing or of the error that ended it.
pub open spec fn listing_view(result: Result<DirListing, CommandError>) -> Result<
    DirListingView,
    CommandErrorView,
> {
    match result {
        Ok(listing) => Ok(listing@),
        Err(error) => Err(error@),
    }
}

/// `dir` begins like `ls`: with the children of the node. A failed listing
/// is the error that names the path.
pub fn dir_command(path: &str, reply: Result<Vec<String>, StoreError>) -> (result: Result<
    DirListing,
    CommandError,
>)
    ensures
        match reply {
            Ok(children) => listing_view(result) == Ok::<DirListingView, CommandErrorView>(
                listed(path@, texts(children@)),
            ),
            Err(cause) => listing_view(result) == Err::<DirListingView, CommandErrorView>(
                CommandErrorView::Store(
                    FailureView { operation: Operation::List, path: path@, cause: cause@ },
                ),
            ),
        },
{
    match ls_command(path, reply) {
        Ok(children) => {
            let listing = DirListing {
                path: path.to_owned(),
                children,
                root: None,
                entries: Vec::new(),
            };
            assert(listing@.entries =~= Seq::<DirEntryView>::empty());
            Ok(listing)
        },
        Err(error) => Err(error),
    }
}

impl DirListing {
    /// The request to send to the store next, or `None` when every child
    /// has been answered for.
    pub fn pending(&self) -> (request: Option<Request>)
        ensures
            request_view(request) == dir_pending_spec(self@),
    {
        if self.root.is_none() {
            Some(Request::Stat(self.path.clone()))
        } else if self.entries.len() < self.children.len() {
            let name = &self.children[self.entries.len()];
            Some(Request::Stat(join_path(self.path.as_str(), name.as_str())))
        } else {
            None
        }
    }

    /// Takes the answer to the pending request.
    pub fn advance(self, reply: Result<Option<Stat>, StoreError>) -> (result: Result<
        DirListing,
        CommandError,
    >)
        ensures
            listing_view(result) == dir_advance_spec(self@, answer_view(reply)),
    {
        let mut listing = self;
        if listing.root.is_none() {
            match existing_stat(listing.path.as_str(), reply) {
                Ok(stat) => {
                    listing.root = Some(stat);
                    Ok(listing)
                },
                Err(error) => Err(error),
            }
        } else if listing.entries.len() < listing.children.len() {
            let name = listing.children[listing.entries.len()].clone();
            let stat = match reply {
                Ok(Some(stat)) => StatReply::Found(stat),
                Ok(None) => StatReply::Missing,
                Err(cause) => StatReply::Failed(cause),
            };
            let ghost before = entries_view(listing.entries@);
            let entry = DirEntry { name, stat };
            listing.entries.push(entry);
            assert(entries_view(listing.entries@) =~= before.push(entry@));
            Ok(listing)
        } else {
            Ok(listing)
        }
    }

    /// The lines of the listing as far as it has come.
    pub fn lines(&self) -> (lines: Vec<String>)
        ensures
            texts(lines@) == dir_output_spec(self@),
    {
        match &self.root {
            Some(stat) => dir_lines(self.path.as_str(), stat, &self.entries),
            None => Vec::new(),
        }
    }
}

/// The outcome of a listing that began in `l` after the answers `answers`,
/// taken in order: its state, or the error that ended it.
pub open spec fn dir_run(l: DirListingView, answers: Seq<AnswerView>) -> Result<
    DirListingView,
    CommandErrorView,
>
    decreases answers.len(),
{
    if answers.len() == 0 {
        Ok(l)
    } else {
        match dir_run(l, answers.drop_last()) {
            Ok(earlier) => dir_advance_spec(earlier, answers.last()),
            Err(error) => Err(error),
        }
    }
}

/// The entries of the first `count` children with the answers for them.
pub open spec fn answered(children: Seq<Seq<char>>, answers: Seq<AnswerView>, count: nat) -> Seq<
    DirEntryView,
> {
    Seq::new(count, |i: int| DirEntryView { name: children[i], stat: recorded(answers[i]) })
}

/// No child can end or shorten a listing. Once the listed node's own
/// metadata `stat` is known, then whatever the store answers for the
/// children, be it metadata, that the child is gone, or a failure, the
/// listing goes through them all and prints the header and one line for each
/// child, in the store's order.
pub proof fn lemma_every_child_is_listed(
    path: Seq<char>,
    children: Seq<Seq<char>>,
    stat: Stat,
    answers: Seq<AnswerView>,
)
    requires
        answers.len() == children.len(),
    ensures
        dir_run(listed(path, children), seq![Ok(Some(stat))] + answers) matches Ok(done)
            && dir_pending_spec(done) is None && dir_output_spec(done) == dir_lines_spec(
            path,
            stat,
            answered(children, answers, children.len()),
        ),
{
    lemma_children_so_far(path, children, stat, answers, answers.len());
    assert(answers.take(answers.len() as int) =~= answers);
}

/// After the answers for the first `count` children, just these are listed.
proof fn lemma_children_so_far(
    path: Seq<char>,
    children: Seq<Seq<char>>,
    stat: Stat,
    answers: Seq<AnswerView>,
    count: nat,
)
    requires
        count <= answers.len() == children.len(),
    ensures
        dir_run(listed(path, children), seq![Ok(Some(stat))] + answers.take(count as int))
            == Ok::<DirListingView, CommandErrorView>(
            DirListingView {
                path,
                children,
                root: Some(stat),
                entries: answered(children, answers, count),
            },
        ),
    decreases count,
{
    let first: Seq<AnswerView> = seq![Ok(Some(stat))];
    let all = first + answers.take(count as int);
    if count == 0 {
        assert(dir_run(listed(path, children), all.drop_last()) == Ok::<
            DirListingView,
            CommandErrorView,
        >(listed(path, children)));
        assert(answered(children, answers, 0) =~= Seq::<DirEntryView>::empty());
    } else {
        let fewer = (count - 1) as nat;
        lemma_children_so_far(path, children, stat, answers, fewer);
        assert(all.drop_last() =~= first + answers.take(fewer as int));
        assert(answered(children, answers, count) =~= answered(children, answers, fewer).push(
            DirEntryView { name: children[fewer as int], stat: recorded(answers[fewer as int]) },
        ));
    }
}

} // verus!
