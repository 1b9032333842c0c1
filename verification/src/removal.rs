//! What a walk has removed, and what a failed walk has spared.
//!
//! A walk without force stops at the first failure. This module proves that
//! by then it has removed neither the failed node nor any node above it:
//! every node is removed after all that lies below it, so a node whose
//! subtree could not be cleared is still there, and so is each of its
//! ancestors. It also proves the other half: a walk without force that ends
//! in success has removed every node it came to know, each after all that
//! lies below it, and the root last.
//!
//! Of every walk, with or without force, it proves that no node is listed
//! twice and none deleted twice, that every request targets the root or a
//! node below it, and that the children of one node have their turn in the
//! order in which the store listed them.
//!
//! The proofs follow each node by its lineage, the names that lead to it
//! from the root, and hold of stores that list for a node the names of its
//! children, no name twice.

use vstd::prelude::*;
use crate::path::{joined, joined_all};
use crate::store::{FailureView, RequestView};
use crate::walker::{
    active, advance_spec, child_frames, failure_of, pending_spec, result_spec, run, start,
    ReplyView, WalkerView,
};

verus! {

/// Whether `name` can name a child: it is not empty and holds no slash.
pub open spec fn is_segment(name: Seq<char>) -> bool {
    name.len() > 0 && forall|i: int| 0 <= i < name.len() ==> name[i] != '/'
}

/// Whether every one of `names` can name a child.
pub open spec fn all_segments(names: Seq<Seq<char>>) -> bool {
    forall|i: int| 0 <= i < names.len() ==> is_segment(#[trigger] names[i])
}

/// Whether `names` is what a store lists for one node: names of children,
/// no two of them the same.
pub open spec fn orderly_listing(names: Seq<Seq<char>>) -> bool {
    &&& all_segments(names)
    &&& forall|i: int, j: int| 0 <= i < j < names.len() ==> names[i] != names[j]
}

/// Whether every listing among `replies` is orderly.
pub open spec fn orderly(replies: Seq<ReplyView>) -> bool {
    forall|k: int|
        0 <= k < replies.len() ==> match #[trigger] replies[k] {
            ReplyView::Children(names) => orderly_listing(names),
            _ => true,
        }
}

/// The path reached from `base` by stepping down through `names` in turn.
pub open spec fn descend(base: Seq<char>, names: Seq<Seq<char>>) -> Seq<char>
    decreases names.len(),
{
    if names.len() == 0 {
        base
    } else {
        joined(descend(base, names.drop_last()), names.last())
    }
}

/// Whether `node` is `ancestor` itself or lies below it, some steps down.
pub open spec fn at_or_below(node: Seq<char>, ancestor: Seq<char>) -> bool {
    exists|names: Seq<Seq<char>>| all_segments(names) && #[trigger] descend(ancestor, names) == node
}

/// The paths whose deletion the store confirmed, in the order of the
/// confirmations, while a walk that began in `w` took `replies`.
pub open spec fn removed(w: WalkerView, replies: Seq<ReplyView>) -> Seq<Seq<char>>
    decreases replies.len(),
{
    if replies.len() == 0 {
        Seq::empty()
    } else {
        let earlier = removed(w, replies.drop_last());
        let before = run(w, replies.drop_last());
        if active(before) && before.stack.last().expanded && replies.last() is Deleted {
            earlier.push(before.stack.last().path)
        } else {
            earlier
        }
    }
}

/// The names that lead from the root of a walk to a node.
type Lineage = Seq<Seq<char>>;

/// The lineages of the nodes on the stack and of the nodes removed.
struct Trail {
    frames: Seq<Lineage>,
    gone: Seq<Lineage>,
}

/// Whether `a` is the beginning of `b`.
spec fn leads(a: Lineage, b: Lineage) -> bool {
    a.len() <= b.len() && b.subrange(0, a.len() as int) == a
}

/// The lineages of the children `names` of `parent`, the first child last.
spec fn child_lineages(parent: Lineage, names: Seq<Seq<char>>) -> Seq<Lineage> {
    Seq::new(names.len(), |i: int| parent.push(names[names.len() - 1 - i]))
}

/// The trail after one reply.
spec fn trail_step(w: WalkerView, t: Trail, reply: ReplyView) -> Trail {
    if !active(w) {
        t
    } else {
        let top = t.frames.last();
        let rest = t.frames.drop_last();
        match reply {
            ReplyView::Children(names) => {
                if w.stack.last().expanded {
                    t
                } else {
                    Trail { frames: t.frames + child_lineages(top, names), gone: t.gone }
                }
            },
            ReplyView::Deleted => {
                if w.stack.last().expanded {
                    Trail { frames: rest, gone: t.gone.push(top) }
                } else {
                    t
                }
            },
            ReplyView::Failed(_) => {
                if w.force && w.stack.last().expanded {
                    Trail { frames: rest, gone: t.gone }
                } else {
                    t
                }
            },
        }
    }
}

/// The trail of a walk from its beginning through `replies`.
spec fn trail(w: WalkerView, replies: Seq<ReplyView>) -> Trail
    decreases replies.len(),
{
    if replies.len() == 0 {
        Trail { frames: seq![Seq::empty()], gone: Seq::empty() }
    } else {
        trail_step(
            run(w, replies.drop_last()),
            trail(w, replies.drop_last()),
            replies.last(),
        )
    }
}

/// Every frame's path is the one its lineage leads to.
spec fn named(root: Seq<char>, w: WalkerView, t: Trail) -> bool {
    &&& t.frames.len() == w.stack.len()
    &&& forall|i: int|
        0 <= i < t.frames.len() ==> all_segments(#[trigger] t.frames[i]) && w.stack[i].path
            == descend(root, t.frames[i])
}

/// Every removed path is the one its lineage leads to.
spec fn logged(root: Seq<char>, t: Trail, paths: Seq<Seq<char>>) -> bool {
    &&& t.gone.len() == paths.len()
    &&& forall|k: int|
        0 <= k < t.gone.len() ==> all_segments(#[trigger] t.gone[k]) && paths[k] == descend(
            root,
            t.gone[k],
        )
}

/// A frame whose children are on the stack lies above all that is over it;
/// a frame that still waits has nothing to do with what is over it.
spec fn nested(w: WalkerView, t: Trail) -> bool {
    forall|i: int, j: int|
        #![trigger t.frames[i], t.frames[j]]
        0 <= i < j < t.frames.len() ==> if w.stack[i].expanded {
            leads(t.frames[i], t.frames[j]) && t.frames[i].len() < t.frames[j].len()
        } else {
            !leads(t.frames[i], t.frames[j]) && !leads(t.frames[j], t.frames[i])
        }
}

/// Nothing removed is a frame or above one, and nothing removed lies at or
/// below a frame that still waits.
spec fn spared(w: WalkerView, t: Trail) -> bool {
    forall|k: int, i: int|
        #![trigger t.gone[k], t.frames[i]]
        0 <= k < t.gone.len() && 0 <= i < t.frames.len() ==> !leads(t.gone[k], t.frames[i]) && (
        !w.stack[i].expanded ==> !leads(t.frames[i], t.gone[k]))
}

/// All that the proof keeps true of a walk and its trail.
spec fn consistent(root: Seq<char>, w: WalkerView, t: Trail, paths: Seq<Seq<char>>) -> bool {
    &&& named(root, w, t)
    &&& logged(root, t, paths)
    &&& nested(w, t)
    &&& spared(w, t)
}

proof fn lemma_leads_push(x: Lineage, l: Lineage, a: Seq<char>)
    requires
        leads(x, l.push(a)),
    ensures
        leads(x, l) || x == l.push(a),
{
    if x.len() <= l.len() {
        assert(l.subrange(0, x.len() as int) =~= l.push(a).subrange(0, x.len() as int));
    }
}

proof fn lemma_push_leads(l: Lineage, a: Seq<char>)
    ensures
        leads(l, l.push(a)),
{
    assert(l.push(a).subrange(0, l.len() as int) =~= l);
}

proof fn lemma_leads_trans(a: Lineage, b: Lineage, c: Lineage)
    requires
        leads(a, b),
        leads(b, c),
    ensures
        leads(a, c),
{
    assert(c.subrange(0, a.len() as int) =~= b.subrange(0, a.len() as int));
}

/// A step down from a lineage is the step from its path to the child.
proof fn lemma_descend_push(base: Seq<char>, l: Lineage, name: Seq<char>)
    ensures
        descend(base, l.push(name)) == joined(descend(base, l), name),
{
    assert(l.push(name).drop_last() =~= l);
}

proof fn lemma_segments_push(l: Lineage, name: Seq<char>)
    requires
        all_segments(l),
        is_segment(name),
    ensures
        all_segments(l.push(name)),
{
}

/// A listing keeps the walk and its trail consistent.
proof fn lemma_children_step(
    root: Seq<char>,
    w: WalkerView,
    t: Trail,
    paths: Seq<Seq<char>>,
    names: Seq<Seq<char>>,
)
    requires
        consistent(root, w, t, paths),
        active(w),
        !w.stack.last().expanded,
        orderly_listing(names),
    ensures
        consistent(
            root,
            advance_spec(w, ReplyView::Children(names)).0,
            trail_step(w, t, ReplyView::Children(names)),
            paths,
        ),
{
    let w2 = advance_spec(w, ReplyView::Children(names)).0;
    let t2 = trail_step(w, t, ReplyView::Children(names));
    let n = w.stack.len() as int;
    let m = names.len() as int;
    let top = t.frames[n - 1];
    assert(named(root, w2, t2)) by {
        assert forall|i: int| 0 <= i < t2.frames.len() implies all_segments(
            #[trigger] t2.frames[i],
        ) && w2.stack[i].path == descend(root, t2.frames[i]) by {
            if i >= n {
                let name = names[m - 1 - (i - n)];
                lemma_segments_push(top, name);
                lemma_descend_push(root, top, name);
            }
        }
    }
    assert(nested(w2, t2)) by {
        assert forall|i: int, j: int|
            #![trigger t2.frames[i], t2.frames[j]]
            0 <= i < j < t2.frames.len() implies if w2.stack[i].expanded {
            leads(t2.frames[i], t2.frames[j]) && t2.frames[i].len() < t2.frames[j].len()
        } else {
            !leads(t2.frames[i], t2.frames[j]) && !leads(t2.frames[j], t2.frames[i])
        } by {
            if j >= n {
                // The upper frame is a new child; the lower one is an old
                // frame, the listed node itself, or another new child.
                let b = names[m - 1 - (j - n)];
                lemma_push_leads(top, b);
                if i < n - 1 {
                    let f = t.frames[i];
                    if w.stack[i].expanded {
                        lemma_leads_trans(f, top, top.push(b));
                    } else {
                        if leads(f, top.push(b)) {
                            lemma_leads_push(f, top, b);
                        }
                        if leads(top.push(b), f) {
                            lemma_leads_trans(top, top.push(b), f);
                        }
                    }
                } else if i >= n {
                    let a = names[m - 1 - (i - n)];
                    if leads(top.push(a), top.push(b)) {
                        lemma_leads_push(top.push(a), top, b);
                    }
                    if leads(top.push(b), top.push(a)) {
                        lemma_leads_push(top.push(b), top, a);
                    }
                }
            }
        }
    }
    assert(spared(w2, t2)) by {
        assert forall|k: int, i: int|
            #![trigger t2.gone[k], t2.frames[i]]
            0 <= k < t2.gone.len() && 0 <= i < t2.frames.len() implies !leads(
            t2.gone[k],
            t2.frames[i],
        ) && (!w2.stack[i].expanded ==> !leads(t2.frames[i], t2.gone[k])) by {
            let x = t.gone[k];
            if i >= n {
                let b = names[m - 1 - (i - n)];
                lemma_push_leads(top, b);
                if leads(x, top.push(b)) {
                    lemma_leads_push(x, top, b);
                }
                if leads(top.push(b), x) {
                    lemma_leads_trans(top, top.push(b), x);
                }
            }
        }
    }
}

/// Any reply keeps the walk and its trail consistent.
proof fn lemma_step(
    root: Seq<char>,
    w: WalkerView,
    t: Trail,
    paths: Seq<Seq<char>>,
    reply: ReplyView,
)
    requires
        consistent(root, w, t, paths),
        match reply {
            ReplyView::Children(names) => orderly_listing(names),
            _ => true,
        },
    ensures
        consistent(
            root,
            advance_spec(w, reply).0,
            trail_step(w, t, reply),
            if active(w) && w.stack.last().expanded && reply is Deleted {
                paths.push(w.stack.last().path)
            } else {
                paths
            },
        ),
{
    match reply {
        ReplyView::Children(names) => {
            if active(w) && !w.stack.last().expanded {
                lemma_children_step(root, w, t, paths, names);
            }
        },
        _ => {},
    }
}

/// A walk and its trail are consistent from the beginning on, as long as
/// every listing is orderly.
proof fn lemma_consistent(root: Seq<char>, force: bool, replies: Seq<ReplyView>)
    requires
        orderly(replies),
    ensures
        consistent(
            root,
            run(start(root, force), replies),
            trail(start(root, force), replies),
            removed(start(root, force), replies),
        ),
    decreases replies.len(),
{
    let w = start(root, force);
    if replies.len() > 0 {
        let earlier = replies.drop_last();
        lemma_consistent(root, force, earlier);
        lemma_step(
            root,
            run(w, earlier),
            trail(w, earlier),
            removed(w, earlier),
            replies.last(),
        );
    }
}

/// The path `parent` as it stands before the slash and the child's name.
spec fn stem(parent: Seq<char>) -> Seq<char> {
    if parent == seq!['/'] {
        Seq::empty()
    } else {
        parent
    }
}

proof fn lemma_joined_stem(parent: Seq<char>, name: Seq<char>)
    ensures
        joined(parent, name) == stem(parent) + seq!['/'] + name,
        joined(parent, name).len() == stem(parent).len() + 1 + name.len(),
{
}

/// Two joined paths that are equal have the same child name and the same stem.
proof fn lemma_joined_split(p1: Seq<char>, n1: Seq<char>, p2: Seq<char>, n2: Seq<char>)
    requires
        is_segment(n1),
        is_segment(n2),
        joined(p1, n1) == joined(p2, n2),
    ensures
        n1 == n2,
        stem(p1) == stem(p2),
{
    lemma_joined_stem(p1, n1);
    lemma_joined_stem(p2, n2);
    let a = stem(p1);
    let b = stem(p2);
    if n1.len() < n2.len() {
        let at = a.len() as int;
        assert((a + seq!['/'] + n1)[at] == '/');
    }
    if n2.len() < n1.len() {
        let at = b.len() as int;
        assert((b + seq!['/'] + n2)[at] == '/');
    }
    assert(n1 =~= n2) by {
        assert forall|i: int| 0 <= i < n1.len() implies n1[i] == n2[i] by {
            assert((a + seq!['/'] + n1)[a.len() + 1 + i] == n1[i]);
        }
    }
    assert(a =~= b) by {
        assert forall|i: int| 0 <= i < a.len() implies a[i] == b[i] by {
            assert((a + seq!['/'] + n1)[i] == a[i]);
        }
    }
}

/// Every step down makes the path longer.
proof fn lemma_descend_len(base: Seq<char>, names: Lineage)
    requires
        all_segments(names),
    ensures
        descend(base, names).len() >= base.len() + names.len(),
        names.len() > 0 ==> descend(base, names).len() >= 2,
    decreases names.len(),
{
    if names.len() > 0 {
        let earlier = names.drop_last();
        lemma_descend_len(base, earlier);
        lemma_joined_stem(descend(base, earlier), names.last());
    }
}

/// Different lineages lead from one base to different paths.
proof fn lemma_descend_injective(base: Seq<char>, a: Lineage, b: Lineage)
    requires
        all_segments(a),
        all_segments(b),
        descend(base, a) == descend(base, b),
    ensures
        a == b,
    decreases a.len(),
{
    lemma_descend_len(base, a);
    lemma_descend_len(base, b);
    if a.len() > 0 && b.len() > 0 {
        let a0 = a.drop_last();
        let b0 = b.drop_last();
        let pa = descend(base, a0);
        let pb = descend(base, b0);
        lemma_joined_split(pa, a.last(), pb, b.last());
        lemma_descend_len(base, a0);
        lemma_descend_len(base, b0);
        lemma_descend_injective(base, a0, b0);
        assert(a =~= a0.push(a.last()));
    }
}

/// Stepping down twice is stepping down once through both lists of names.
proof fn lemma_descend_twice(base: Seq<char>, a: Lineage, b: Lineage)
    ensures
        descend(descend(base, a), b) == descend(base, a + b),
    decreases b.len(),
{
    if b.len() > 0 {
        lemma_descend_twice(base, a, b.drop_last());
        assert((a + b).drop_last() =~= a + b.drop_last());
    }
}

proof fn lemma_segments_concat(a: Lineage, b: Lineage)
    requires
        all_segments(a),
        all_segments(b),
    ensures
        all_segments(a + b),
{
}

/// Replies to a walk that has ended remove nothing.
proof fn lemma_ended_walk_removes_nothing(
    w: WalkerView,
    replies: Seq<ReplyView>,
    later: Seq<ReplyView>,
)
    requires
        !active(run(w, replies)),
    ensures
        run(w, replies + later) == run(w, replies),
        removed(w, replies + later) == removed(w, replies),
    decreases later.len(),
{
    if later.len() > 0 {
        lemma_ended_walk_removes_nothing(w, replies, later.drop_last());
        assert((replies + later).drop_last() =~= replies + later.drop_last());
    }
}

/// A walk without force spares the ancestors of the node at which it fails.
///
/// Take a walk over `root` without force that has had the orderly replies
/// `replies` and still has a request pending, and let that request fail.
/// Then the walk ends with the failure that names the request's node, and no
/// path removed so far is that node or has that node below it: the failed
/// node and every ancestor of it are still in the store. Whatever replies
/// come `later`, nothing more is removed, and what was removed before the
/// failure, the subtrees of siblings handled earlier, stays removed.
pub proof fn lemma_failure_spares_ancestors(
    root: Seq<char>,
    replies: Seq<ReplyView>,
    cause: Seq<char>,
    later: Seq<ReplyView>,
)
    requires
        orderly(replies),
        active(run(start(root, false), replies)),
    ensures
        ({
            let begun = start(root, false);
            let before = run(begun, replies);
            let failed = before.stack.last().path;
            let all = replies.push(ReplyView::Failed(cause)) + later;
            &&& result_spec(run(begun, all)) == Err::<(), FailureView>(failure_of(before, cause))
            &&& failure_of(before, cause).path == failed
            &&& removed(begun, all) == removed(begun, replies)
            &&& forall|k: int|
                0 <= k < removed(begun, replies).len() ==> !at_or_below(
                    failed,
                    #[trigger] removed(begun, replies)[k],
                )
        }),
{
    let begun = start(root, false);
    let before = run(begun, replies);
    let failed = before.stack.last().path;
    let until = replies.push(ReplyView::Failed(cause));
    assert(until.drop_last() =~= replies);
    lemma_force_stays(begun, replies);
    lemma_ended_walk_removes_nothing(begun, until, later);
    lemma_consistent(root, false, replies);
    let t = trail(begun, replies);
    let paths = removed(begun, replies);
    let n = before.stack.len() as int;
    let top = t.frames[n - 1];
    assert forall|k: int| 0 <= k < paths.len() implies !at_or_below(failed, #[trigger] paths[k]) by {
        let x = t.gone[k];
        assert forall|names: Seq<Seq<char>>| all_segments(names) implies #[trigger] descend(
            paths[k],
            names,
        ) != failed by {
            if descend(paths[k], names) == failed {
                lemma_descend_twice(root, x, names);
                lemma_segments_concat(x, names);
                lemma_descend_injective(root, x + names, top);
                assert(top.subrange(0, x.len() as int) =~= x);
            }
        }
    }
}

/// A walk keeps the force flag with which it began.
proof fn lemma_force_stays(w: WalkerView, replies: Seq<ReplyView>)
    ensures
        run(w, replies).force == w.force,
    decreases replies.len(),
{
    if replies.len() > 0 {
        lemma_force_stays(w, replies.drop_last());
    }
}

/// The paths of the nodes that a walk has put on its stack: those it began
/// with, and every child of every listing that it took.
pub open spec fn entered(w: WalkerView, replies: Seq<ReplyView>) -> Seq<Seq<char>>
    decreases replies.len(),
{
    if replies.len() == 0 {
        Seq::new(w.stack.len(), |i: int| w.stack[i].path)
    } else {
        let earlier = entered(w, replies.drop_last());
        let before = run(w, replies.drop_last());
        match replies.last() {
            ReplyView::Children(names) => {
                if active(before) && !before.stack.last().expanded {
                    earlier + joined_all(before.stack.last().path, names)
                } else {
                    earlier
                }
            },
            _ => earlier,
        }
    }
}

/// Whether a node with the path `path` waits on the stack.
spec fn waits(w: WalkerView, path: Seq<char>) -> bool {
    exists|i: int| 0 <= i < w.stack.len() && (#[trigger] w.stack[i]).path == path
}

/// Every node that entered the stack is removed or still waits.
spec fn accounted(w: WalkerView, seen: Seq<Seq<char>>, gone: Seq<Seq<char>>) -> bool {
    forall|k: int| 0 <= k < seen.len() ==> gone.contains(#[trigger] seen[k]) || waits(w, seen[k])
}

/// A failure, once recorded, stays.
proof fn lemma_failure_stays(w: WalkerView, replies: Seq<ReplyView>, count: int)
    requires
        0 <= count <= replies.len(),
        run(w, replies.take(count)).failure is Some,
    ensures
        run(w, replies).failure is Some,
    decreases replies.len() - count,
{
    if count < replies.len() {
        assert(replies.take(count + 1).drop_last() =~= replies.take(count));
        lemma_failure_stays(w, replies, count + 1);
    } else {
        assert(replies.take(count) =~= replies);
    }
}

/// As long as a walk without force has not failed, every node that entered
/// its stack is removed or still waits.
proof fn lemma_accounted(w: WalkerView, replies: Seq<ReplyView>)
    requires
        !w.force,
        run(w, replies).failure is None,
    ensures
        accounted(run(w, replies), entered(w, replies), removed(w, replies)),
    decreases replies.len(),
{
    if replies.len() > 0 {
        let earlier = replies.drop_last();
        let before = run(w, earlier);
        let after = run(w, replies);
        if before.failure is Some {
            lemma_failure_stays(w, replies, replies.len() - 1);
        }
        lemma_accounted(w, earlier);
        lemma_force_stays(w, earlier);
        let seen = entered(w, earlier);
        let gone = removed(w, earlier);
        let seen2 = entered(w, replies);
        let gone2 = removed(w, replies);
        let n = before.stack.len() as int;
        if active(before) {
            let top = before.stack[n - 1];
            match replies.last() {
                ReplyView::Children(names) => {
                    if !top.expanded {
                        let m = names.len() as int;
                        assert forall|k: int| 0 <= k < seen2.len() implies gone2.contains(
                            #[trigger] seen2[k],
                        ) || waits(after, seen2[k]) by {
                            if k < seen.len() {
                                if !gone.contains(seen[k]) {
                                    let i = choose|i: int|
                                        0 <= i < before.stack.len() && (
                                        #[trigger] before.stack[i]).path == seen[k];
                                    assert(after.stack[i].path == seen[k]);
                                }
                            } else {
                                let j = k - seen.len();
                                assert(after.stack[n + (m - 1 - j)] == child_frames(
                                    top.path,
                                    names,
                                )[m - 1 - j]);
                            }
                        }
                    }
                },
                ReplyView::Deleted => {
                    if top.expanded {
                        assert forall|k: int| 0 <= k < seen2.len() implies gone2.contains(
                            #[trigger] seen2[k],
                        ) || waits(after, seen2[k]) by {
                            if gone.contains(seen[k]) {
                                let at = choose|at: int| 0 <= at < gone.len() && gone[at] == seen[k];
                                assert(gone2[at] == seen[k]);
                            } else {
                                let i = choose|i: int|
                                    0 <= i < before.stack.len() && (
                                    #[trigger] before.stack[i]).path == seen[k];
                                if i == n - 1 {
                                    assert(gone2[gone.len() as int] == seen[k]);
                                } else {
                                    assert(after.stack[i].path == seen[k]);
                                }
                            }
                        }
                    }
                },
                ReplyView::Failed(_) => {},
            }
        }
    }
}

/// Success without force means that the subtree is gone.
///
/// When a walk over `root` without force has ended without a failure, the
/// store has confirmed the deletion of every node that the walk came to
/// know: of the root and of every child that any listing named.
pub proof fn lemma_success_leaves_nothing(root: Seq<char>, replies: Seq<ReplyView>)
    requires
        !active(run(start(root, false), replies)),
        result_spec(run(start(root, false), replies)) == Ok::<(), FailureView>(()),
    ensures
        removed(start(root, false), replies).contains(root),
        forall|k: int|
            0 <= k < entered(start(root, false), replies).len() ==> removed(
                start(root, false),
                replies,
            ).contains(#[trigger] entered(start(root, false), replies)[k]),
{
    let begun = start(root, false);
    lemma_accounted(begun, replies);
    lemma_entered_root(root, replies);
}

/// The root is the first node to enter the stack.
proof fn lemma_entered_root(root: Seq<char>, replies: Seq<ReplyView>)
    ensures
        entered(start(root, false), replies).len() > 0,
        entered(start(root, false), replies)[0] == root,
    decreases replies.len(),
{
    if replies.len() > 0 {
        lemma_entered_root(root, replies.drop_last());
    }
}

/// Whether `node` lies below `ancestor`, one step down or more.
pub open spec fn below(node: Seq<char>, ancestor: Seq<char>) -> bool {
    exists|names: Seq<Seq<char>>|
        names.len() > 0 && all_segments(names) && #[trigger] descend(ancestor, names) == node
}

/// A node is deleted after all that lies below it.
///
/// When a walk over `root` without force, after the orderly replies
/// `replies`, asks for the deletion of a node, the store has confirmed the
/// deletion of every node below that node that the walk came to know.
pub proof fn lemma_children_before_parent(root: Seq<char>, replies: Seq<ReplyView>, k: int)
    requires
        orderly(replies),
        0 <= k < entered(start(root, false), replies).len(),
        pending_spec(run(start(root, false), replies)) matches Some(
            RequestView::Delete { path, .. },
        ) && below(entered(start(root, false), replies)[k], path),
    ensures
        removed(start(root, false), replies).contains(entered(start(root, false), replies)[k]),
{
    let begun = start(root, false);
    let now = run(begun, replies);
    let node = entered(begun, replies)[k];
    lemma_accounted(begun, replies);
    lemma_consistent(root, false, replies);
    if !removed(begun, replies).contains(node) {
        let t = trail(begun, replies);
        let n = now.stack.len() as int;
        let top = t.frames[n - 1];
        let i = choose|i: int| 0 <= i < now.stack.len() && (#[trigger] now.stack[i]).path == node;
        let names = choose|names: Seq<Seq<char>>|
            names.len() > 0 && all_segments(names) && #[trigger] descend(
                now.stack.last().path,
                names,
            ) == node;
        lemma_descend_twice(root, top, names);
        lemma_segments_concat(top, names);
        lemma_descend_injective(root, top + names, t.frames[i]);
        assert(t.frames[i].subrange(0, top.len() as int) =~= top);
    }
}

/// Whether `reply` answers the request that the walk in state `w` has
/// pending: a listing or a failure where children are asked for, a
/// confirmation or a failure where a deletion is.
pub open spec fn answers(w: WalkerView, reply: ReplyView) -> bool {
    active(w) && match reply {
        ReplyView::Children(_) => !w.stack.last().expanded,
        ReplyView::Deleted => w.stack.last().expanded,
        ReplyView::Failed(_) => true,
    }
}

/// The paths whose children the walk asked for and was answered, in order.
pub open spec fn listed(w: WalkerView, replies: Seq<ReplyView>) -> Seq<Seq<char>>
    decreases replies.len(),
{
    if replies.len() == 0 {
        Seq::empty()
    } else {
        let earlier = listed(w, replies.drop_last());
        let before = run(w, replies.drop_last());
        if answers(before, replies.last()) && !before.stack.last().expanded {
            earlier.push(before.stack.last().path)
        } else {
            earlier
        }
    }
}

/// The paths whose deletion the walk asked for and was answered, whether
/// the store confirmed or refused it, in order.
pub open spec fn tried(w: WalkerView, replies: Seq<ReplyView>) -> Seq<Seq<char>>
    decreases replies.len(),
{
    if replies.len() == 0 {
        Seq::empty()
    } else {
        let earlier = tried(w, replies.drop_last());
        let before = run(w, replies.drop_last());
        if answers(before, replies.last()) && before.stack.last().expanded {
            earlier.push(before.stack.last().path)
        } else {
            earlier
        }
    }
}

/// The lineages of the nodes listed, of those whose deletion was tried, and
/// of those that have left the stack.
struct Ledger {
    lists: Seq<Lineage>,
    tries: Seq<Lineage>,
    left: Seq<Lineage>,
}

/// The ledger after one reply to a walk in state `w` whose top node has the
/// lineage `top`.
spec fn ledger_step(w: WalkerView, top: Lineage, g: Ledger, reply: ReplyView) -> Ledger {
    if !answers(w, reply) {
        g
    } else if !w.stack.last().expanded {
        Ledger { lists: g.lists.push(top), ..g }
    } else if reply is Deleted || w.force {
        Ledger { tries: g.tries.push(top), left: g.left.push(top), ..g }
    } else {
        Ledger { tries: g.tries.push(top), ..g }
    }
}

/// The ledger of a walk from its beginning through `replies`.
spec fn ledger(w: WalkerView, replies: Seq<ReplyView>) -> Ledger
    decreases replies.len(),
{
    if replies.len() == 0 {
        Ledger { lists: Seq::empty(), tries: Seq::empty(), left: Seq::empty() }
    } else {
        ledger_step(
            run(w, replies.drop_last()),
            trail(w, replies.drop_last()).frames.last(),
            ledger(w, replies.drop_last()),
            replies.last(),
        )
    }
}

/// Every path of `paths` is the one that the lineage at its place leads to.
spec fn led(root: Seq<char>, lineages: Seq<Lineage>, paths: Seq<Seq<char>>) -> bool {
    &&& lineages.len() == paths.len()
    &&& forall|k: int|
        0 <= k < lineages.len() ==> all_segments(#[trigger] lineages[k]) && paths[k] == descend(
            root,
            lineages[k],
        )
}

/// No two of the lineages are the same.
spec fn distinct(lineages: Seq<Lineage>) -> bool {
    forall|a: int, b: int|
        #![trigger lineages[a], lineages[b]]
        0 <= a < b < lineages.len() ==> lineages[a] != lineages[b]
}

/// Nothing of `xs` is a frame or above one, and nothing of `xs` lies at or
/// below a frame that still waits.
spec fn clear_of(w: WalkerView, frames: Seq<Lineage>, xs: Seq<Lineage>) -> bool {
    forall|k: int, i: int|
        #![trigger xs[k], frames[i]]
        0 <= k < xs.len() && 0 <= i < frames.len() ==> !leads(xs[k], frames[i]) && (
        !w.stack[i].expanded ==> !leads(frames[i], xs[k]))
}

/// Whether the node with the lineage `x` has its children on the stack or
/// has left the stack.
spec fn handled(w: WalkerView, frames: Seq<Lineage>, left: Seq<Lineage>, x: Lineage) -> bool {
    left.contains(x) || exists|i: int|
        0 <= i < frames.len() && w.stack[i].expanded && #[trigger] frames[i] == x
}

/// All that the proof keeps true of a walk and its ledger.
spec fn booked(
    root: Seq<char>,
    w: WalkerView,
    t: Trail,
    g: Ledger,
    lists: Seq<Seq<char>>,
    tries: Seq<Seq<char>>,
) -> bool {
    &&& led(root, g.lists, lists)
    &&& led(root, g.tries, tries)
    &&& distinct(g.lists)
    &&& distinct(g.tries)
    &&& clear_of(w, t.frames, g.left)
    &&& w.failure is None ==> forall|k: int|
        0 <= k < g.lists.len() ==> handled(w, t.frames, g.left, #[trigger] g.lists[k])
    &&& w.failure is None ==> forall|k: int|
        0 <= k < g.tries.len() ==> g.left.contains(#[trigger] g.tries[k])
}

/// A listing keeps what has left the stack clear of the frames.
proof fn lemma_children_keep_clear(
    w: WalkerView,
    t: Trail,
    names: Seq<Seq<char>>,
    xs: Seq<Lineage>,
)
    requires
        t.frames.len() == w.stack.len(),
        active(w),
        !w.stack.last().expanded,
        clear_of(w, t.frames, xs),
    ensures
        clear_of(
            advance_spec(w, ReplyView::Children(names)).0,
            trail_step(w, t, ReplyView::Children(names)).frames,
            xs,
        ),
{
    let w2 = advance_spec(w, ReplyView::Children(names)).0;
    let t2 = trail_step(w, t, ReplyView::Children(names));
    let n = w.stack.len() as int;
    let m = names.len() as int;
    let top = t.frames[n - 1];
    assert forall|k: int, i: int|
        #![trigger xs[k], t2.frames[i]]
        0 <= k < xs.len() && 0 <= i < t2.frames.len() implies !leads(xs[k], t2.frames[i]) && (
    !w2.stack[i].expanded ==> !leads(t2.frames[i], xs[k])) by {
        let x = xs[k];
        if i >= n {
            let b = names[m - 1 - (i - n)];
            lemma_push_leads(top, b);
            if leads(x, top.push(b)) {
                lemma_leads_push(x, top, b);
            }
            if leads(top.push(b), x) {
                lemma_leads_trans(top, top.push(b), x);
            }
        }
    }
}

/// Any reply keeps the walk and its ledger in order.
proof fn lemma_booked_step(
    root: Seq<char>,
    w: WalkerView,
    t: Trail,
    g: Ledger,
    lists: Seq<Seq<char>>,
    tries: Seq<Seq<char>>,
    reply: ReplyView,
)
    requires
        named(root, w, t),
        nested(w, t),
        booked(root, w, t, g, lists, tries),
    ensures
        booked(
            root,
            advance_spec(w, reply).0,
            trail_step(w, t, reply),
            ledger_step(w, t.frames.last(), g, reply),
            if answers(w, reply) && !w.stack.last().expanded {
                lists.push(w.stack.last().path)
            } else {
                lists
            },
            if answers(w, reply) && w.stack.last().expanded {
                tries.push(w.stack.last().path)
            } else {
                tries
            },
        ),
{
    if answers(w, reply) {
        let w2 = advance_spec(w, reply).0;
        let t2 = trail_step(w, t, reply);
        let g2 = ledger_step(w, t.frames.last(), g, reply);
        let n = w.stack.len() as int;
        let top = t.frames[n - 1];
        // The top node is none of those that have left the stack.
        assert forall|k: int| 0 <= k < g.left.len() implies #[trigger] g.left[k] != top by {
            if g.left[k] == top {
                assert(top.subrange(0, top.len() as int) =~= top);
            }
        }
        match reply {
            ReplyView::Children(names) => {
                lemma_children_keep_clear(w, t, names, g.left);
                assert forall|k: int| 0 <= k < g2.lists.len() implies handled(
                    w2,
                    t2.frames,
                    g2.left,
                    #[trigger] g2.lists[k],
                ) by {
                    let x = g2.lists[k];
                    if k < g.lists.len() {
                        if !g.left.contains(x) {
                            let i = choose|i: int|
                                0 <= i < t.frames.len() && w.stack[i].expanded
                                    && #[trigger] t.frames[i] == x;
                            assert(t2.frames[i] == x && w2.stack[i].expanded);
                        }
                    } else {
                        assert(t2.frames[n - 1] == x && w2.stack[n - 1].expanded);
                    }
                }
            },
            _ => {
                if w2.stack.len() < n {
                    // The top node has left the stack.
                    assert(g2.left[g.left.len() as int] == top);
                    assert forall|k: int| 0 <= k < g2.lists.len() implies handled(
                        w2,
                        t2.frames,
                        g2.left,
                        #[trigger] g2.lists[k],
                    ) by {
                        let x = g2.lists[k];
                        if g.left.contains(x) {
                            let at = choose|at: int| 0 <= at < g.left.len() && g.left[at] == x;
                            assert(g2.left[at] == x);
                        } else {
                            let i = choose|i: int|
                                0 <= i < t.frames.len() && w.stack[i].expanded
                                    && #[trigger] t.frames[i] == x;
                            if i < n - 1 {
                                assert(t2.frames[i] == x && w2.stack[i].expanded);
                            }
                        }
                    }
                    assert forall|k: int| 0 <= k < g2.tries.len() implies g2.left.contains(
                        #[trigger] g2.tries[k],
                    ) by {
                        if k < g.tries.len() {
                            let x = g.tries[k];
                            let at = choose|at: int| 0 <= at < g.left.len() && g.left[at] == x;
                            assert(g2.left[at] == x);
                        }
                    }
                }
            },
        }
    }
}

/// A walk and its ledger are in order from the beginning on, as long as
/// every listing is orderly.
proof fn lemma_booked(root: Seq<char>, force: bool, replies: Seq<ReplyView>)
    requires
        orderly(replies),
    ensures
        booked(
            root,
            run(start(root, force), replies),
            trail(start(root, force), replies),
            ledger(start(root, force), replies),
            listed(start(root, force), replies),
            tried(start(root, force), replies),
        ),
    decreases replies.len(),
{
    let w = start(root, force);
    if replies.len() > 0 {
        let earlier = replies.drop_last();
        lemma_booked(root, force, earlier);
        lemma_consistent(root, force, earlier);
        lemma_booked_step(
            root,
            run(w, earlier),
            trail(w, earlier),
            ledger(w, earlier),
            listed(w, earlier),
            tried(w, earlier),
            replies.last(),
        );
    }
}

/// No node is listed twice: the paths whose children a walk asks for, with
/// or without force, are all different, as long as every listing is orderly.
pub proof fn lemma_no_path_listed_twice(
    root: Seq<char>,
    force: bool,
    replies: Seq<ReplyView>,
    a: int,
    b: int,
)
    requires
        orderly(replies),
        0 <= a < b < listed(start(root, force), replies).len(),
    ensures
        listed(start(root, force), replies)[a] != listed(start(root, force), replies)[b],
{
    lemma_booked(root, force, replies);
    let g = ledger(start(root, force), replies);
    if listed(start(root, force), replies)[a] == listed(start(root, force), replies)[b] {
        lemma_descend_injective(root, g.lists[a], g.lists[b]);
    }
}

/// No deletion is asked for twice: the paths whose deletion a walk asks for,
/// with or without force, are all different, as long as every listing is
/// orderly. So no node is deleted more than once.
pub proof fn lemma_no_path_deleted_twice(
    root: Seq<char>,
    force: bool,
    replies: Seq<ReplyView>,
    a: int,
    b: int,
)
    requires
        orderly(replies),
        0 <= a < b < tried(start(root, force), replies).len(),
    ensures
        tried(start(root, force), replies)[a] != tried(start(root, force), replies)[b],
{
    lemma_booked(root, force, replies);
    let g = ledger(start(root, force), replies);
    if tried(start(root, force), replies)[a] == tried(start(root, force), replies)[b] {
        lemma_descend_injective(root, g.tries[a], g.tries[b]);
    }
}

/// Every request of a walk targets the root or a node below it.
pub proof fn lemma_requests_stay_below_root(root: Seq<char>, force: bool, replies: Seq<ReplyView>)
    requires
        orderly(replies),
        active(run(start(root, force), replies)),
    ensures
        at_or_below(run(start(root, force), replies).stack.last().path, root),
{
    lemma_consistent(root, force, replies);
    let now = run(start(root, force), replies);
    let t = trail(start(root, force), replies);
    let top = t.frames[now.stack.len() - 1];
    assert(all_segments(top) && descend(root, top) == now.stack.last().path);
}

/// While anything waits, the root waits at the bottom; once a walk without
/// force has got through without a failure, the root was the last to go.
proof fn lemma_root_at_bottom(root: Seq<char>, replies: Seq<ReplyView>)
    ensures
        ({
            let now = run(start(root, false), replies);
            let gone = removed(start(root, false), replies);
            &&& now.stack.len() > 0 ==> now.stack[0].path == root
            &&& now.stack.len() == 0 ==> gone.len() > 0 && gone.last() == root
        }),
    decreases replies.len(),
{
    if replies.len() > 0 {
        lemma_root_at_bottom(root, replies.drop_last());
        lemma_force_stays(start(root, false), replies.drop_last());
    }
}

/// The root goes last: when a walk over `root` without force has ended
/// without a failure, the last deletion that the store confirmed was that
/// of the root.
pub proof fn lemma_root_goes_last(root: Seq<char>, replies: Seq<ReplyView>)
    requires
        !active(run(start(root, false), replies)),
        result_spec(run(start(root, false), replies)) == Ok::<(), FailureView>(()),
    ensures
        removed(start(root, false), replies).len() > 0,
        removed(start(root, false), replies).last() == root,
{
    lemma_root_at_bottom(root, replies);
}

/// The names that each answered listing gave, at the place of the listed
/// path in [`listed`]; none where the listing failed.
pub open spec fn listings(w: WalkerView, replies: Seq<ReplyView>) -> Seq<Seq<Seq<char>>>
    decreases replies.len(),
{
    if replies.len() == 0 {
        Seq::empty()
    } else {
        let earlier = listings(w, replies.drop_last());
        let before = run(w, replies.drop_last());
        if answers(before, replies.last()) && !before.stack.last().expanded {
            earlier.push(names_of(replies.last()))
        } else {
            earlier
        }
    }
}

/// The names that a reply lists; none for a reply that is no listing.
pub open spec fn names_of(reply: ReplyView) -> Seq<Seq<char>> {
    match reply {
        ReplyView::Children(names) => names,
        _ => Seq::empty(),
    }
}

/// The lineage of child `i` of listing `q`.
spec fn child_of(g: Ledger, ns: Seq<Seq<Seq<char>>>, q: int, i: int) -> Lineage {
    g.lists[q].push(ns[q][i])
}

/// Whether the deletion of `x` was tried before place `b`.
spec fn tried_before(tries: Seq<Lineage>, x: Lineage, b: int) -> bool {
    exists|a: int| 0 <= a < b && #[trigger] tries[a] == x
}

/// Whether `x` waits on the stack above place `sb`.
spec fn waits_above(frames: Seq<Lineage>, x: Lineage, sb: int) -> bool {
    exists|sa: int| sb < sa < frames.len() && #[trigger] frames[sa] == x
}

/// Of two children of one listing, the one listed first has its turn first:
/// it was tried before the other, and while the other waits it waits above
/// it or has left.
spec fn ordered(t: Trail, g: Ledger, ns: Seq<Seq<Seq<char>>>) -> bool {
    &&& ns.len() == g.lists.len()
    &&& forall|q: int| 0 <= q < ns.len() ==> all_segments(#[trigger] ns[q])
    &&& forall|k: int| 0 <= k < g.left.len() ==> g.tries.contains(#[trigger] g.left[k])
    &&& forall|q: int, i: int, j: int, b: int|
        #![trigger ns[q][i], ns[q][j], g.tries[b]]
        0 <= q < ns.len() && 0 <= i < j < ns[q].len() && 0 <= b < g.tries.len() && g.tries[b]
            == child_of(g, ns, q, j) ==> tried_before(g.tries, child_of(g, ns, q, i), b)
    &&& forall|q: int, i: int, j: int, sb: int|
        #![trigger ns[q][i], ns[q][j], t.frames[sb]]
        0 <= q < ns.len() && 0 <= i < j < ns[q].len() && 0 <= sb < t.frames.len()
            && t.frames[sb] == child_of(g, ns, q, j) ==> g.left.contains(child_of(g, ns, q, i))
            || waits_above(t.frames, child_of(g, ns, q, i), sb)
}

/// No two frames have the same lineage.
proof fn lemma_frames_differ(w: WalkerView, t: Trail, a: int, b: int)
    requires
        nested(w, t),
        0 <= a < b < t.frames.len(),
    ensures
        t.frames[a] != t.frames[b],
{
    if t.frames[a] == t.frames[b] {
        assert(t.frames[b].subrange(0, t.frames[a].len() as int) =~= t.frames[a]);
    }
}

/// Any reply keeps the turns in order.
proof fn lemma_ordered_step(
    root: Seq<char>,
    w: WalkerView,
    t: Trail,
    g: Ledger,
    lists: Seq<Seq<char>>,
    tries: Seq<Seq<char>>,
    ns: Seq<Seq<Seq<char>>>,
    reply: ReplyView,
)
    requires
        named(root, w, t),
        nested(w, t),
        nested(advance_spec(w, reply).0, trail_step(w, t, reply)),
        booked(root, w, t, g, lists, tries),
        ordered(t, g, ns),
        match reply {
            ReplyView::Children(names) => orderly_listing(names),
            _ => true,
        },
    ensures
        ordered(
            trail_step(w, t, reply),
            ledger_step(w, t.frames.last(), g, reply),
            if answers(w, reply) && !w.stack.last().expanded {
                ns.push(names_of(reply))
            } else {
                ns
            },
        ),
{
    if answers(w, reply) {
        let w2 = advance_spec(w, reply).0;
        let t2 = trail_step(w, t, reply);
        let g2 = ledger_step(w, t.frames.last(), g, reply);
        let n = w.stack.len() as int;
        let top = t.frames[n - 1];
        if !w.stack.last().expanded {
            let ns2 = ns.push(names_of(reply));
            let names = names_of(reply);
            let m = names.len() as int;
            let old = ns.len() as int;
            // The top node was not listed before, so none of its children
            // is a child of an earlier listing.
            assert forall|k: int| 0 <= k < g.lists.len() implies #[trigger] g.lists[k] != top by {
                let x = g.lists[k];
                if x == top {
                    if g.left.contains(x) {
                        let at = choose|at: int| 0 <= at < g.left.len() && g.left[at] == x;
                        assert(!leads(g.left[at], t.frames[n - 1]));
                        assert(top.subrange(0, top.len() as int) =~= top);
                    } else {
                        let i = choose|i: int|
                            0 <= i < t.frames.len() && w.stack[i].expanded && #[trigger] t.frames[i]
                                == x;
                        assert(t.frames[i].len() < t.frames[n - 1].len());
                    }
                }
            }
            assert forall|q: int, i: int, j: int, b: int|
                #![trigger ns2[q][i], ns2[q][j], g2.tries[b]]
                0 <= q < ns2.len() && 0 <= i < j < ns2[q].len() && 0 <= b < g2.tries.len()
                    && g2.tries[b] == child_of(g2, ns2, q, j) implies tried_before(
                g2.tries,
                child_of(g2, ns2, q, i),
                b,
            ) by {
                if q >= old {
                    // Nothing below the top node has been tried yet.
                    let x = g.tries[b];
                    let at = choose|at: int| 0 <= at < g.left.len() && g.left[at] == x;
                    assert(!leads(t.frames[n - 1], g.left[at]));
                    lemma_push_leads(top, ns2[q][j]);
                }
            }
            assert forall|q: int, i: int, j: int, sb: int|
                #![trigger ns2[q][i], ns2[q][j], t2.frames[sb]]
                0 <= q < ns2.len() && 0 <= i < j < ns2[q].len() && 0 <= sb < t2.frames.len()
                    && t2.frames[sb] == child_of(g2, ns2, q, j) implies g2.left.contains(
                child_of(g2, ns2, q, i),
            ) || waits_above(t2.frames, child_of(g2, ns2, q, i), sb) by {
                let x = child_of(g2, ns2, q, i);
                let y = child_of(g2, ns2, q, j);
                if q < old {
                    if sb < t.frames.len() {
                        if !g.left.contains(x) {
                            let sa = choose|sa: int|
                                sb < sa < t.frames.len() && #[trigger] t.frames[sa] == x;
                            assert(t2.frames[sa] == x);
                        }
                    } else {
                        // A new frame is a child of the top node, which no
                        // earlier listing was of.
                        let c = names[m - 1 - (sb - n)];
                        assert(top.push(c).drop_last() =~= top);
                        assert(y.drop_last() =~= g.lists[q]);
                    }
                } else {
                    // The children of this listing stand in reverse order,
                    // the earlier one above the later one.
                    let sj = n + (m - 1 - j);
                    let si = n + (m - 1 - i);
                    assert(t2.frames[sj] == y);
                    assert(t2.frames[si] == x);
                    if sb != sj {
                        if sb < sj {
                            lemma_frames_differ(w2, t2, sb, sj);
                        } else {
                            lemma_frames_differ(w2, t2, sj, sb);
                        }
                    }
                }
            }
        } else {
            let old = g.tries.len() as int;
            assert(g2.tries[old] == top);
            assert forall|k: int| 0 <= k < g2.left.len() implies g2.tries.contains(
                #[trigger] g2.left[k],
            ) by {
                if k < g.left.len() {
                    let x = g.left[k];
                    let at = choose|at: int| 0 <= at < g.tries.len() && g.tries[at] == x;
                    assert(g2.tries[at] == x);
                }
            }
            assert forall|q: int, i: int, j: int, b: int|
                #![trigger ns[q][i], ns[q][j], g2.tries[b]]
                0 <= q < ns.len() && 0 <= i < j < ns[q].len() && 0 <= b < g2.tries.len()
                    && g2.tries[b] == child_of(g2, ns, q, j) implies tried_before(
                g2.tries,
                child_of(g2, ns, q, i),
                b,
            ) by {
                let x = child_of(g, ns, q, i);
                let y = child_of(g, ns, q, j);
                if b < old {
                    let a = choose|a: int| 0 <= a < b && #[trigger] g.tries[a] == x;
                    assert(g2.tries[a] == x);
                } else {
                    // The top node has its turn: whatever was listed before
                    // it cannot wait above it, so it has left, and it left
                    // by being tried.
                    assert(t.frames[n - 1] == y);
                    assert(g.left.contains(x));
                    let a = choose|a: int| 0 <= a < g.tries.len() && g.tries[a] == x;
                    assert(g2.tries[a] == x);
                }
            }
            assert forall|q: int, i: int, j: int, sb: int|
                #![trigger ns[q][i], ns[q][j], t2.frames[sb]]
                0 <= q < ns.len() && 0 <= i < j < ns[q].len() && 0 <= sb < t2.frames.len()
                    && t2.frames[sb] == child_of(g2, ns, q, j) implies g2.left.contains(
                child_of(g2, ns, q, i),
            ) || waits_above(t2.frames, child_of(g2, ns, q, i), sb) by {
                let x = child_of(g, ns, q, i);
                let y = child_of(g, ns, q, j);
                if g.left.contains(x) {
                    let k = choose|k: int| 0 <= k < g.left.len() && g.left[k] == x;
                    assert(g2.left[k] == x);
                } else {
                    let sa = choose|sa: int|
                        sb < sa < t.frames.len() && #[trigger] t.frames[sa] == x;
                    if sa < t2.frames.len() {
                        assert(t2.frames[sa] == x);
                    } else {
                        assert(g2.left[g.left.len() as int] == x);
                    }
                }
            }
        }
    }
}

/// The turns of a walk are in order from the beginning on, as long as every
/// listing is orderly.
proof fn lemma_ordered(root: Seq<char>, force: bool, replies: Seq<ReplyView>)
    requires
        orderly(replies),
    ensures
        ordered(
            trail(start(root, force), replies),
            ledger(start(root, force), replies),
            listings(start(root, force), replies),
        ),
    decreases replies.len(),
{
    let w = start(root, force);
    if replies.len() > 0 {
        let earlier = replies.drop_last();
        lemma_ordered(root, force, earlier);
        lemma_booked(root, force, earlier);
        lemma_consistent(root, force, earlier);
        lemma_consistent(root, force, replies);
        lemma_ordered_step(
            root,
            run(w, earlier),
            trail(w, earlier),
            ledger(w, earlier),
            listed(w, earlier),
            tried(w, earlier),
            listings(w, earlier),
            replies.last(),
        );
    }
}

/// Siblings have their turn in the order in which the store listed them.
///
/// Take listing `q` of a walk, with or without force, whose listings are
/// all orderly, and two of the children that it names, the one at `i`
/// before the one at `j`. If the deletion of the later child was asked for,
/// as request `b`, then the deletion of the earlier child was asked for
/// before that.
pub proof fn lemma_siblings_in_listed_order(
    root: Seq<char>,
    force: bool,
    replies: Seq<ReplyView>,
    q: int,
    i: int,
    j: int,
    b: int,
)
    requires
        orderly(replies),
        0 <= q < listings(start(root, force), replies).len(),
        0 <= i < j < listings(start(root, force), replies)[q].len(),
        0 <= b < tried(start(root, force), replies).len(),
        tried(start(root, force), replies)[b] == joined(
            listed(start(root, force), replies)[q],
            listings(start(root, force), replies)[q][j],
        ),
    ensures
        exists|a: int|
            0 <= a < b && #[trigger] tried(start(root, force), replies)[a] == joined(
                listed(start(root, force), replies)[q],
                listings(start(root, force), replies)[q][i],
            ),
{
    let w = start(root, force);
    lemma_booked(root, force, replies);
    lemma_ordered(root, force, replies);
    let g = ledger(w, replies);
    let ns = listings(w, replies);
    let x = child_of(g, ns, q, i);
    let y = child_of(g, ns, q, j);
    lemma_segments_push(g.lists[q], ns[q][i]);
    lemma_segments_push(g.lists[q], ns[q][j]);
    lemma_descend_push(root, g.lists[q], ns[q][i]);
    lemma_descend_push(root, g.lists[q], ns[q][j]);
    lemma_descend_injective(root, g.tries[b], y);
    assert(tried_before(g.tries, x, b));
    let a = choose|a: int| 0 <= a < b && #[trigger] g.tries[a] == x;
    assert(tried(w, replies)[a] == joined(listed(w, replies)[q], ns[q][i]));
}

} // verus!
