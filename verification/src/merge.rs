//! The three-way merge engine: resolves two divergent snapshots of the
//! canonical log against a common ancestor, record by record and field by
//! field, deterministically and without conflict markers.
//!
//! Per id: a record present and unchanged on both sides is taken as is; a
//! change on one side wins over no change; a record deleted on one side
//! while untouched on the other stays deleted; a record edited on one side
//! and deleted on the other survives; edits on both sides merge field by
//! field, where for a scalar field the side whose record carries the later
//! `updated_at` wins, label sets are unioned, dependency lists are unioned
//! by (target, type), and comment lists are unioned by (author, text,
//! created-at).

use crate::model::{
    clone_comments, clone_deps, clone_strings, eq_issue, eq_opt_i32, eq_opt_i64, eq_opt_string,
    eq_string_vec, opt_i32_view, opt_i64_view, opt_str_view, wf_comment, wf_dep, wf_issue, Comment,
    CommentModel, DepModel, Dependency, Issue, IssueModel,
};
use crate::snapshot::{ids_sorted, lookup, snap_wf, Snapshot};
use crate::text::{lemma_lex_asym, lemma_lex_connex, lemma_lex_trans, lex_lt, str_lt};
use vstd::prelude::*;

verus! {

/// Field-level choice: an unchanged side yields to a changed side; when
/// both changed, the side with the later `updated_at` (`l_wins`) decides.
pub open spec fn pick<A>(b: Option<A>, lv: A, rv: A, l_wins: bool) -> A {
    if lv == rv {
        lv
    } else {
        match b {
            Option::Some(bv) => if lv == bv {
                rv
            } else if rv == bv {
                lv
            } else if l_wins {
                lv
            } else {
                rv
            },
            Option::None => if l_wins {
                lv
            } else {
                rv
            },
        }
    }
}

/// Two dependency edges with the same (target, type) key.
pub open spec fn dep_same_key(a: DepModel, b: DepModel) -> bool {
    a.depends_on_id == b.depends_on_id && a.type_ == b.type_
}

pub open spec fn has_dep_key(ds: Seq<DepModel>, d: DepModel) -> bool {
    exists|i: int| 0 <= i < ds.len() && dep_same_key(#[trigger] ds[i], d)
}

/// Two comments with the same (author, text, created-at) key.
pub open spec fn com_same_key(a: CommentModel, b: CommentModel) -> bool {
    a.author == b.author && a.text == b.text && a.created_at == b.created_at
}

pub open spec fn has_com_key(cs: Seq<CommentModel>, c: CommentModel) -> bool {
    exists|i: int| 0 <= i < cs.len() && com_same_key(#[trigger] cs[i], c)
}

/// Label sets are unioned: the left list, then every right label not
/// already present.
pub open spec fn union_labels(a: Seq<Seq<char>>, b: Seq<Seq<char>>) -> Seq<Seq<char>>
    decreases b.len(),
{
    if b.len() == 0 {
        a
    } else {
        union_labels(
            if a.contains(b[0]) {
                a
            } else {
                a.push(b[0])
            },
            b.skip(1),
        )
    }
}

/// Dependency lists are unioned by (target, type).
pub open spec fn union_deps(a: Seq<DepModel>, b: Seq<DepModel>) -> Seq<DepModel>
    decreases b.len(),
{
    if b.len() == 0 {
        a
    } else {
        union_deps(
            if has_dep_key(a, b[0]) {
                a
            } else {
                a.push(b[0])
            },
            b.skip(1),
        )
    }
}

/// Comment lists are unioned by (author, text, created-at).
pub open spec fn union_comments(a: Seq<CommentModel>, b: Seq<CommentModel>) -> Seq<CommentModel>
    decreases b.len(),
{
    if b.len() == 0 {
        a
    } else {
        union_comments(
            if has_com_key(a, b[0]) {
                a
            } else {
                a.push(b[0])
            },
            b.skip(1),
        )
    }
}

/// Field-level merge of two records that both changed: scalars go to the
/// changed side, or to the later-updated side when both changed; the three
/// collections are unioned.
pub open spec fn field_merge(b: Option<IssueModel>, l: IssueModel, r: IssueModel) -> IssueModel {
    let w = l.updated_at >= r.updated_at;
    IssueModel {
        id: l.id,
        content_hash: Seq::<char>::empty(),
        title: pick(
            match b {
                Option::Some(x) => Option::Some(x.title),
                Option::None => Option::None,
            },
            l.title,
            r.title,
            w,
        ),
        description: pick(
            match b {
                Option::Some(x) => Option::Some(x.description),
                Option::None => Option::None,
            },
            l.description,
            r.description,
            w,
        ),
        design: pick(
            match b {
                Option::Some(x) => Option::Some(x.design),
                Option::None => Option::None,
            },
            l.design,
            r.design,
            w,
        ),
        acceptance_criteria: pick(
            match b {
                Option::Some(x) => Option::Some(x.acceptance_criteria),
                Option::None => Option::None,
            },
            l.acceptance_criteria,
            r.acceptance_criteria,
            w,
        ),
        notes: pick(
            match b {
                Option::Some(x) => Option::Some(x.notes),
                Option::None => Option::None,
            },
            l.notes,
            r.notes,
            w,
        ),
        status: pick(
            match b {
                Option::Some(x) => Option::Some(x.status),
                Option::None => Option::None,
            },
            l.status,
            r.status,
            w,
        ),
        priority: pick(
            match b {
                Option::Some(x) => Option::Some(x.priority),
                Option::None => Option::None,
            },
            l.priority,
            r.priority,
            w,
        ),
        issue_type: pick(
            match b {
                Option::Some(x) => Option::Some(x.issue_type),
                Option::None => Option::None,
            },
            l.issue_type,
            r.issue_type,
            w,
        ),
        assignee: pick(
            match b {
                Option::Some(x) => Option::Some(x.assignee),
                Option::None => Option::None,
            },
            l.assignee,
            r.assignee,
            w,
        ),
        estimated_minutes: pick(
            match b {
                Option::Some(x) => Option::Some(x.estimated_minutes),
                Option::None => Option::None,
            },
            l.estimated_minutes,
            r.estimated_minutes,
            w,
        ),
        created_at: pick(
            match b {
                Option::Some(x) => Option::Some(x.created_at),
                Option::None => Option::None,
            },
            l.created_at,
            r.created_at,
            w,
        ),
        updated_at: pick(
            match b {
                Option::Some(x) => Option::Some(x.updated_at),
                Option::None => Option::None,
            },
            l.updated_at,
            r.updated_at,
            w,
        ),
        closed_at: pick(
            match b {
                Option::Some(x) => Option::Some(x.closed_at),
                Option::None => Option::None,
            },
            l.closed_at,
            r.closed_at,
            w,
        ),
        external_ref: pick(
            match b {
                Option::Some(x) => Option::Some(x.external_ref),
                Option::None => Option::None,
            },
            l.external_ref,
            r.external_ref,
            w,
        ),
        sender: pick(
            match b {
                Option::Some(x) => Option::Some(x.sender),
                Option::None => Option::None,
            },
            l.sender,
            r.sender,
            w,
        ),
        ephemeral: pick(
            match b {
                Option::Some(x) => Option::Some(x.ephemeral),
                Option::None => Option::None,
            },
            l.ephemeral,
            r.ephemeral,
            w,
        ),
        replies_to: pick(
            match b {
                Option::Some(x) => Option::Some(x.replies_to),
                Option::None => Option::None,
            },
            l.replies_to,
            r.replies_to,
            w,
        ),
        relates_to: pick(
            match b {
                Option::Some(x) => Option::Some(x.relates_to),
                Option::None => Option::None,
            },
            l.relates_to,
            r.relates_to,
            w,
        ),
        duplicate_of: pick(
            match b {
                Option::Some(x) => Option::Some(x.duplicate_of),
                Option::None => Option::None,
            },
            l.duplicate_of,
            r.duplicate_of,
            w,
        ),
        superseded_by: pick(
            match b {
                Option::Some(x) => Option::Some(x.superseded_by),
                Option::None => Option::None,
            },
            l.superseded_by,
            r.superseded_by,
            w,
        ),
        deleted_at: pick(
            match b {
                Option::Some(x) => Option::Some(x.deleted_at),
                Option::None => Option::None,
            },
            l.deleted_at,
            r.deleted_at,
            w,
        ),
        deleted_by: pick(
            match b {
                Option::Some(x) => Option::Some(x.deleted_by),
                Option::None => Option::None,
            },
            l.deleted_by,
            r.deleted_by,
            w,
        ),
        delete_reason: pick(
            match b {
                Option::Some(x) => Option::Some(x.delete_reason),
                Option::None => Option::None,
            },
            l.delete_reason,
            r.delete_reason,
            w,
        ),
        original_type: pick(
            match b {
                Option::Some(x) => Option::Some(x.original_type),
                Option::None => Option::None,
            },
            l.original_type,
            r.original_type,
            w,
        ),
        labels: union_labels(l.labels, r.labels),
        dependencies: union_deps(l.dependencies, r.dependencies),
        comments: union_comments(l.comments, r.comments),
    }
}

/// Resolution for an id present on both sides.
pub open spec fn merge_both(b: Option<IssueModel>, l: IssueModel, r: IssueModel) -> IssueModel {
    if l == r {
        l
    } else {
        match b {
            Option::Some(bm) => if l == bm {
                r
            } else if r == bm {
                l
            } else {
                field_merge(Option::Some(bm), l, r)
            },
            Option::None => field_merge(Option::None, l, r),
        }
    }
}

/// Resolution for an id present on one side only: a record the base never
/// saw is an addition and stays; a record equal to its base version was
/// deleted on the other side, and the deletion wins; a record that differs
/// from its base version was edited here and survives the deletion.
pub open spec fn keep_one_side(b: Option<IssueModel>, x: IssueModel) -> Seq<IssueModel> {
    match b {
        Option::None => seq![x],
        Option::Some(bm) => if x == bm {
            Seq::<IssueModel>::empty()
        } else {
            seq![x]
        },
    }
}

/// The merged snapshot: a sorted walk over both sides, deciding each id
/// against the base.
pub open spec fn merge_seq(
    b: Seq<IssueModel>,
    l: Seq<IssueModel>,
    r: Seq<IssueModel>,
) -> Seq<IssueModel>
    decreases l.len() + r.len(),
{
    if l.len() == 0 && r.len() == 0 {
        Seq::<IssueModel>::empty()
    } else if r.len() == 0 || (l.len() > 0 && lex_lt(l[0].id, r[0].id)) {
        keep_one_side(lookup(b, l[0].id), l[0]) + merge_seq(b, l.skip(1), r)
    } else if l.len() == 0 || lex_lt(r[0].id, l[0].id) {
        keep_one_side(lookup(b, r[0].id), r[0]) + merge_seq(b, l, r.skip(1))
    } else {
        seq![merge_both(lookup(b, l[0].id), l[0], r[0])] + merge_seq(b, l.skip(1), r.skip(1))
    }
}

/// Merging a snapshot with itself over itself reproduces it exactly.
pub proof fn lemma_merge_idempotent(ms: Seq<IssueModel>)
    ensures
        merge_seq(ms, ms, ms) == ms,
    decreases ms.len(),
{
    if ms.len() > 0 {
        lemma_lex_asym(ms[0].id, ms[0].id);
        lemma_merge_idempotent(ms.skip(1));
        assert(merge_seq(ms.skip(1), ms.skip(1), ms.skip(1)) == ms.skip(1));
        lemma_merge_base_irrelevant_eq(ms, ms.skip(1), ms.skip(1), ms.skip(1));
        assert(seq![ms[0]] + ms.skip(1) =~= ms);
    }
}

/// Two walks with equal sides agree even under different bases, when both
/// sides are the same sequence: the base is never consulted then.
proof fn lemma_merge_base_irrelevant_eq(
    b1: Seq<IssueModel>,
    b2: Seq<IssueModel>,
    l: Seq<IssueModel>,
    r: Seq<IssueModel>,
)
    requires
        l == r,
    ensures
        merge_seq(b1, l, r) == merge_seq(b2, l, r),
    decreases l.len() + r.len(),
{
    if l.len() > 0 {
        lemma_lex_asym(l[0].id, r[0].id);
        lemma_merge_base_irrelevant_eq(b1, b2, l.skip(1), r.skip(1));
    }
}


/// Helper: a suffix of a sorted sequence is sorted.
proof fn lemma_sorted_skip(ms: Seq<IssueModel>, i: int)
    requires
        ids_sorted(ms),
        0 <= i <= ms.len(),
    ensures
        ids_sorted(ms.skip(i)),
{
    assert forall|a: int, b: int| 0 <= a < b < ms.skip(i).len() implies lex_lt(
        ms.skip(i)[a].id,
        ms.skip(i)[b].id,
    ) by {
        assert(ms.skip(i)[a] == ms[a + i]);
        assert(ms.skip(i)[b] == ms[b + i]);
    }
}

/// Merging local changes against an unchanged remote returns the local
/// side: the generalized walk against a suffix of the base.
proof fn lemma_merge_lb(b: Seq<IssueModel>, l: Seq<IssueModel>, i: int)
    requires
        ids_sorted(b),
        ids_sorted(l),
        0 <= i <= b.len(),
        l.len() > 0 && i > 0 ==> lex_lt(b[i - 1].id, l[0].id),
    ensures
        merge_seq(b, l, b.skip(i)) == l,
    decreases l.len() + b.len() - i,
{
    let r = b.skip(i);
    if l.len() == 0 && r.len() == 0 {
        assert(merge_seq(b, l, r) =~= l);
    } else if r.len() == 0 || (l.len() > 0 && lex_lt(l[0].id, r[0].id)) {
        assert(lookup(b, l[0].id) is None) by {
            crate::snapshot::lemma_lookup_mem(b, l[0].id);
            if lookup(b, l[0].id) is Some {
                let x = lookup(b, l[0].id)->Some_0;
                let w = choose|w: int| 0 <= w < b.len() && b[w] == x;
                if w < i {
                    if w < i - 1 {
                        lemma_lex_trans(b[w].id, b[i - 1].id, l[0].id);
                    } else {
                        lemma_lex_asym(b[w].id, l[0].id);
                    }
                    lemma_lex_asym(b[w].id, l[0].id);
                    assert(false);
                } else {
                    assert(r[w - i] == b[w]);
                    if w == i {
                        assert(lex_lt(l[0].id, r[0].id));
                        lemma_lex_asym(l[0].id, r[0].id);
                    } else {
                        assert(lex_lt(r[0].id, r[w - i].id));
                        assert(lex_lt(l[0].id, r[0].id));
                        lemma_lex_trans(l[0].id, r[0].id, r[w - i].id);
                        lemma_lex_asym(l[0].id, r[w - i].id);
                    }
                    assert(false);
                }
            }
        }
        assert(ids_sorted(l.skip(1))) by {
            lemma_sorted_skip(l, 1);
        }
        if l.skip(1).len() > 0 && i > 0 {
            assert(l.skip(1)[0] == l[1]);
            lemma_lex_trans(b[i - 1].id, l[0].id, l[1].id);
        }
        lemma_merge_lb(b, l.skip(1), i);
        assert(seq![l[0]] + l.skip(1) =~= l);
    } else if l.len() == 0 || lex_lt(r[0].id, l[0].id) {
        assert(r[0] == b[i]);
        crate::snapshot::lemma_lookup_at(b, i);
        assert(keep_one_side(lookup(b, r[0].id), r[0]) =~= Seq::<IssueModel>::empty());
        assert(b.skip(i).skip(1) =~= b.skip(i + 1));
        if l.len() > 0 {
            assert(lex_lt(b[i].id, l[0].id));
        }
        lemma_merge_lb(b, l, i + 1);
        assert(Seq::<IssueModel>::empty() + merge_seq(b, l, b.skip(i + 1)) =~= merge_seq(
            b,
            l,
            b.skip(i + 1),
        ));
    } else {
        lemma_lex_connex(l[0].id, r[0].id);
        assert(l[0].id == r[0].id);
        assert(r[0] == b[i]);
        crate::snapshot::lemma_lookup_at(b, i);
        let d = merge_both(lookup(b, l[0].id), l[0], r[0]);
        assert(d == l[0]);
        assert(ids_sorted(l.skip(1))) by {
            lemma_sorted_skip(l, 1);
        }
        assert(b.skip(i).skip(1) =~= b.skip(i + 1));
        if l.skip(1).len() > 0 {
            assert(l.skip(1)[0] == l[1]);
            assert(lex_lt(l[0].id, l[1].id));
        }
        lemma_merge_lb(b, l.skip(1), i + 1);
        assert(seq![l[0]] + l.skip(1) =~= l);
    }
}

/// Merging an unchanged local side against remote changes returns the
/// remote side.
proof fn lemma_merge_br(b: Seq<IssueModel>, r: Seq<IssueModel>, i: int)
    requires
        ids_sorted(b),
        ids_sorted(r),
        0 <= i <= b.len(),
        r.len() > 0 && i > 0 ==> lex_lt(b[i - 1].id, r[0].id),
    ensures
        merge_seq(b, b.skip(i), r) == r,
    decreases r.len() + b.len() - i,
{
    let l = b.skip(i);
    if l.len() == 0 && r.len() == 0 {
        assert(merge_seq(b, l, r) =~= r);
    } else if r.len() == 0 || (l.len() > 0 && lex_lt(l[0].id, r[0].id)) {
        assert(l[0] == b[i]);
        crate::snapshot::lemma_lookup_at(b, i);
        assert(keep_one_side(lookup(b, l[0].id), l[0]) =~= Seq::<IssueModel>::empty());
        assert(b.skip(i).skip(1) =~= b.skip(i + 1));
        if r.len() > 0 {
            assert(lex_lt(b[i].id, r[0].id));
        }
        lemma_merge_br(b, r, i + 1);
        assert(Seq::<IssueModel>::empty() + merge_seq(b, b.skip(i + 1), r) =~= merge_seq(
            b,
            b.skip(i + 1),
            r,
        ));
    } else if l.len() == 0 || lex_lt(r[0].id, l[0].id) {
        assert(lookup(b, r[0].id) is None) by {
            crate::snapshot::lemma_lookup_mem(b, r[0].id);
            if lookup(b, r[0].id) is Some {
                let x = lookup(b, r[0].id)->Some_0;
                let w = choose|w: int| 0 <= w < b.len() && b[w] == x;
                if w < i {
                    if w < i - 1 {
                        lemma_lex_trans(b[w].id, b[i - 1].id, r[0].id);
                    } else {
                    }
                    lemma_lex_asym(b[w].id, r[0].id);
                    assert(false);
                } else {
                    assert(l[w - i] == b[w]);
                    if w == i {
                        lemma_lex_asym(r[0].id, l[0].id);
                    } else {
                        assert(lex_lt(l[0].id, l[w - i].id));
                        lemma_lex_trans(r[0].id, l[0].id, l[w - i].id);
                        lemma_lex_asym(r[0].id, l[w - i].id);
                    }
                    assert(false);
                }
            }
        }
        assert(ids_sorted(r.skip(1))) by {
            lemma_sorted_skip(r, 1);
        }
        if r.skip(1).len() > 0 && i > 0 {
            assert(r.skip(1)[0] == r[1]);
            lemma_lex_trans(b[i - 1].id, r[0].id, r[1].id);
        }
        lemma_merge_br(b, r.skip(1), i);
        assert(seq![r[0]] + r.skip(1) =~= r);
    } else {
        lemma_lex_connex(l[0].id, r[0].id);
        assert(l[0].id == r[0].id);
        assert(l[0] == b[i]);
        crate::snapshot::lemma_lookup_at(b, i);
        let d = merge_both(lookup(b, l[0].id), l[0], r[0]);
        assert(d == r[0]);
        assert(ids_sorted(r.skip(1))) by {
            lemma_sorted_skip(r, 1);
        }
        assert(b.skip(i).skip(1) =~= b.skip(i + 1));
        if r.skip(1).len() > 0 {
            assert(r.skip(1)[0] == r[1]);
            assert(lex_lt(r[0].id, r[1].id));
        }
        lemma_merge_br(b, r.skip(1), i + 1);
        assert(seq![r[0]] + r.skip(1) =~= r);
    }
}

/// Merging local changes against their own base returns the local side
/// unchanged.
pub proof fn lemma_merge_left_identity(b: Seq<IssueModel>, l: Seq<IssueModel>)
    requires
        ids_sorted(b),
        ids_sorted(l),
    ensures
        merge_seq(b, l, b) == l,
{
    assert(b.skip(0) =~= b);
    lemma_merge_lb(b, l, 0);
}

/// Merging a base against remote changes returns the remote side
/// unchanged.
pub proof fn lemma_merge_right_identity(b: Seq<IssueModel>, r: Seq<IssueModel>)
    requires
        ids_sorted(b),
        ids_sorted(r),
    ensures
        merge_seq(b, b, r) == r,
{
    assert(b.skip(0) =~= b);
    lemma_merge_br(b, r, 0);
}


/// Some record of `ms` carries `id`.
pub open spec fn id_in(ms: Seq<IssueModel>, id: Seq<char>) -> bool {
    exists|w: int| 0 <= w < ms.len() && (#[trigger] ms[w]).id == id
}

proof fn lemma_union_deps_wf(a: Seq<DepModel>, b: Seq<DepModel>)
    requires
        forall|i: int| 0 <= i < a.len() ==> wf_dep(#[trigger] a[i]),
        forall|i: int| 0 <= i < b.len() ==> wf_dep(#[trigger] b[i]),
    ensures
        forall|i: int| 0 <= i < union_deps(a, b).len() ==> wf_dep(#[trigger] union_deps(a, b)[i]),
    decreases b.len(),
{
    if b.len() > 0 {
        let a2 = if has_dep_key(a, b[0]) {
            a
        } else {
            a.push(b[0])
        };
        assert forall|i: int| 0 <= i < a2.len() implies wf_dep(#[trigger] a2[i]) by {
            if i < a.len() {
                assert(a2[i] == a[i]);
            } else {
                assert(a2[i] == b[0]);
            }
        }
        assert forall|i: int| 0 <= i < b.skip(1).len() implies wf_dep(
            #[trigger] b.skip(1)[i],
        ) by {
            assert(b.skip(1)[i] == b[i + 1]);
        }
        lemma_union_deps_wf(a2, b.skip(1));
        assert(union_deps(a, b) == union_deps(a2, b.skip(1)));
    }
}

proof fn lemma_union_comments_wf(a: Seq<CommentModel>, b: Seq<CommentModel>)
    requires
        forall|i: int| 0 <= i < a.len() ==> wf_comment(#[trigger] a[i]),
        forall|i: int| 0 <= i < b.len() ==> wf_comment(#[trigger] b[i]),
    ensures
        forall|i: int|
            0 <= i < union_comments(a, b).len() ==> wf_comment(#[trigger] union_comments(a, b)[i]),
    decreases b.len(),
{
    if b.len() > 0 {
        let a2 = if has_com_key(a, b[0]) {
            a
        } else {
            a.push(b[0])
        };
        assert forall|i: int| 0 <= i < a2.len() implies wf_comment(#[trigger] a2[i]) by {
            if i < a.len() {
                assert(a2[i] == a[i]);
            } else {
                assert(a2[i] == b[0]);
            }
        }
        assert forall|i: int| 0 <= i < b.skip(1).len() implies wf_comment(
            #[trigger] b.skip(1)[i],
        ) by {
            assert(b.skip(1)[i] == b[i + 1]);
        }
        lemma_union_comments_wf(a2, b.skip(1));
        assert(union_comments(a, b) == union_comments(a2, b.skip(1)));
    }
}

/// The resolution of one id is well formed, carries that id, and has no
/// content hash.
pub proof fn lemma_merge_both_wf(b: Option<IssueModel>, l: IssueModel, r: IssueModel)
    requires
        wf_issue(l),
        wf_issue(r),
        l.content_hash == Seq::<char>::empty(),
        r.content_hash == Seq::<char>::empty(),
        l.id == r.id,
    ensures
        wf_issue(merge_both(b, l, r)),
        merge_both(b, l, r).id == l.id,
        merge_both(b, l, r).content_hash == Seq::<char>::empty(),
{
    if l == r {
    } else {
        let go = match b {
            Option::Some(bm) => l != bm && r != bm,
            Option::None => true,
        };
        if go {
            let m = field_merge(b, l, r);
            lemma_union_deps_wf(l.dependencies, r.dependencies);
            lemma_union_comments_wf(l.comments, r.comments);
            assert(m.priority == l.priority || m.priority == r.priority);
            assert(m.created_at == l.created_at || m.created_at == r.created_at);
            assert(m.updated_at == l.updated_at || m.updated_at == r.updated_at);
            assert(m.closed_at == l.closed_at || m.closed_at == r.closed_at);
            assert(m.deleted_at == l.deleted_at || m.deleted_at == r.deleted_at);
            assert(m.estimated_minutes == l.estimated_minutes || m.estimated_minutes
                == r.estimated_minutes);
        }
    }
}

/// The merge of two well-formed snapshots is a well-formed snapshot whose
/// ids all come from one of the sides.
pub proof fn lemma_merge_wf(b: Seq<IssueModel>, l: Seq<IssueModel>, r: Seq<IssueModel>)
    requires
        snap_wf(l),
        snap_wf(r),
    ensures
        snap_wf(merge_seq(b, l, r)),
        forall|k: int|
            0 <= k < merge_seq(b, l, r).len() ==> id_in(l, (#[trigger] merge_seq(b, l, r)[k]).id)
                || id_in(r, merge_seq(b, l, r)[k].id),
    decreases l.len() + r.len(),
{
    let out = merge_seq(b, l, r);
    if l.len() == 0 && r.len() == 0 {
    } else if r.len() == 0 || (l.len() > 0 && lex_lt(l[0].id, r[0].id)) {
        lemma_sorted_skip(l, 1);
        assert(snap_wf(l.skip(1))) by {
            assert(forall|i: int|
                0 <= i < l.skip(1).len() ==> #[trigger] l.skip(1)[i] == l[i + 1]);
        }
        lemma_merge_wf(b, l.skip(1), r);
        let rec = merge_seq(b, l.skip(1), r);
        let piece = keep_one_side(lookup(b, l[0].id), l[0]);
        assert forall|k: int| 0 <= k < out.len() implies id_in(l, (#[trigger] out[k]).id)
            || id_in(r, out[k].id) by {
            if k < piece.len() {
                assert(out[k] == l[0]);
            } else {
                assert(out[k] == rec[k - piece.len()]);
                if id_in(l.skip(1), rec[k - piece.len()].id) {
                    let w = choose|w: int|
                        0 <= w < l.skip(1).len() && (#[trigger] l.skip(1)[w]).id == rec[k
                            - piece.len()].id;
                    assert(l[w + 1].id == rec[k - piece.len()].id);
                }
            }
        }
        assert forall|k: int|
            0 <= k < out.len() implies wf_issue(#[trigger] out[k]) && out[k].content_hash
            == Seq::<char>::empty() by {
            if k < piece.len() {
                assert(out[k] == l[0]);
            } else {
                assert(out[k] == rec[k - piece.len()]);
            }
        }
        assert forall|i: int, j: int| 0 <= i < j < out.len() implies lex_lt(
            out[i].id,
            out[j].id,
        ) by {
            if i < piece.len() {
                assert(out[i] == l[0]);
                assert(out[j] == rec[j - piece.len()]);
                let jid = rec[j - piece.len()].id;
                if id_in(l.skip(1), jid) {
                    let w = choose|w: int|
                        0 <= w < l.skip(1).len() && (#[trigger] l.skip(1)[w]).id == jid;
                    assert(l.skip(1)[w] == l[w + 1]);
                    assert(lex_lt(l[0].id, l[w + 1].id));
                } else {
                    assert(id_in(r, jid));
                    let w = choose|w: int| 0 <= w < r.len() && (#[trigger] r[w]).id == jid;
                    assert(r.len() > 0);
                    assert(lex_lt(l[0].id, r[0].id));
                    if w > 0 {
                        assert(lex_lt(r[0].id, r[w].id));
                        lemma_lex_trans(l[0].id, r[0].id, r[w].id);
                    }
                }
            } else {
                assert(out[i] == rec[i - piece.len()]);
                assert(out[j] == rec[j - piece.len()]);
            }
        }
    } else if l.len() == 0 || lex_lt(r[0].id, l[0].id) {
        lemma_sorted_skip(r, 1);
        assert(snap_wf(r.skip(1))) by {
            assert(forall|i: int|
                0 <= i < r.skip(1).len() ==> #[trigger] r.skip(1)[i] == r[i + 1]);
        }
        lemma_merge_wf(b, l, r.skip(1));
        let rec = merge_seq(b, l, r.skip(1));
        let piece = keep_one_side(lookup(b, r[0].id), r[0]);
        assert forall|k: int| 0 <= k < out.len() implies id_in(l, (#[trigger] out[k]).id)
            || id_in(r, out[k].id) by {
            if k < piece.len() {
                assert(out[k] == r[0]);
            } else {
                assert(out[k] == rec[k - piece.len()]);
                if id_in(r.skip(1), rec[k - piece.len()].id) {
                    let w = choose|w: int|
                        0 <= w < r.skip(1).len() && (#[trigger] r.skip(1)[w]).id == rec[k
                            - piece.len()].id;
                    assert(r[w + 1].id == rec[k - piece.len()].id);
                }
            }
        }
        assert forall|k: int|
            0 <= k < out.len() implies wf_issue(#[trigger] out[k]) && out[k].content_hash
            == Seq::<char>::empty() by {
            if k < piece.len() {
                assert(out[k] == r[0]);
            } else {
                assert(out[k] == rec[k - piece.len()]);
            }
        }
        assert forall|i: int, j: int| 0 <= i < j < out.len() implies lex_lt(
            out[i].id,
            out[j].id,
        ) by {
            if i < piece.len() {
                assert(out[i] == r[0]);
                assert(out[j] == rec[j - piece.len()]);
                let jid = rec[j - piece.len()].id;
                if id_in(r.skip(1), jid) {
                    let w = choose|w: int|
                        0 <= w < r.skip(1).len() && (#[trigger] r.skip(1)[w]).id == jid;
                    assert(r.skip(1)[w] == r[w + 1]);
                    assert(lex_lt(r[0].id, r[w + 1].id));
                } else {
                    assert(id_in(l, jid));
                    let w = choose|w: int| 0 <= w < l.len() && (#[trigger] l[w]).id == jid;
                    assert(l.len() > 0);
                    assert(lex_lt(r[0].id, l[0].id));
                    if w > 0 {
                        assert(lex_lt(l[0].id, l[w].id));
                        lemma_lex_trans(r[0].id, l[0].id, l[w].id);
                    }
                }
            } else {
                assert(out[i] == rec[i - piece.len()]);
                assert(out[j] == rec[j - piece.len()]);
            }
        }
    } else {
        lemma_lex_connex(l[0].id, r[0].id);
        assert(l[0].id == r[0].id);
        lemma_sorted_skip(l, 1);
        lemma_sorted_skip(r, 1);
        assert(snap_wf(l.skip(1))) by {
            assert(forall|i: int|
                0 <= i < l.skip(1).len() ==> #[trigger] l.skip(1)[i] == l[i + 1]);
        }
        assert(snap_wf(r.skip(1))) by {
            assert(forall|i: int|
                0 <= i < r.skip(1).len() ==> #[trigger] r.skip(1)[i] == r[i + 1]);
        }
        lemma_merge_wf(b, l.skip(1), r.skip(1));
        lemma_merge_both_wf(lookup(b, l[0].id), l[0], r[0]);
        let rec = merge_seq(b, l.skip(1), r.skip(1));
        let d = merge_both(lookup(b, l[0].id), l[0], r[0]);
        assert forall|k: int| 0 <= k < out.len() implies id_in(l, (#[trigger] out[k]).id)
            || id_in(r, out[k].id) by {
            if k == 0 {
                assert(out[0] == d);
                assert(d.id == l[0].id);
            } else {
                assert(out[k] == rec[k - 1]);
                if id_in(l.skip(1), rec[k - 1].id) {
                    let w = choose|w: int|
                        0 <= w < l.skip(1).len() && (#[trigger] l.skip(1)[w]).id == rec[k - 1].id;
                    assert(l[w + 1].id == rec[k - 1].id);
                } else {
                    let w = choose|w: int|
                        0 <= w < r.skip(1).len() && (#[trigger] r.skip(1)[w]).id == rec[k - 1].id;
                    assert(r[w + 1].id == rec[k - 1].id);
                }
            }
        }
        assert forall|k: int|
            0 <= k < out.len() implies wf_issue(#[trigger] out[k]) && out[k].content_hash
            == Seq::<char>::empty() by {
            if k == 0 {
                assert(out[0] == d);
            } else {
                assert(out[k] == rec[k - 1]);
            }
        }
        assert forall|i: int, j: int| 0 <= i < j < out.len() implies lex_lt(
            out[i].id,
            out[j].id,
        ) by {
            if i == 0 {
                assert(out[0] == d);
                assert(out[j] == rec[j - 1]);
                let jid = rec[j - 1].id;
                if id_in(l.skip(1), jid) {
                    let w = choose|w: int|
                        0 <= w < l.skip(1).len() && (#[trigger] l.skip(1)[w]).id == jid;
                    assert(l.skip(1)[w] == l[w + 1]);
                    assert(lex_lt(l[0].id, l[w + 1].id));
                } else {
                    assert(id_in(r.skip(1), jid));
                    let w = choose|w: int|
                        0 <= w < r.skip(1).len() && (#[trigger] r.skip(1)[w]).id == jid;
                    assert(r.skip(1)[w] == r[w + 1]);
                    assert(lex_lt(r[0].id, r[w + 1].id));
                }
            } else {
                assert(out[i] == rec[i - 1]);
                assert(out[j] == rec[j - 1]);
            }
        }
    }
}


/// The model of an optional base record.
pub open spec fn opt_issue_view(b: Option<&Issue>) -> Option<IssueModel> {
    match b {
        Option::Some(x) => Option::Some(x@),
        Option::None => Option::None,
    }
}

fn pick_string(b: Option<&String>, lv: &String, rv: &String, w: bool) -> (res: String)
    ensures
        res@ == pick::<Seq<char>>(
            match b {
                Option::Some(x) => Option::Some(x@),
                Option::None => Option::None,
            },
            lv@,
            rv@,
            w,
        ),
{
    if *lv == *rv {
        lv.clone()
    } else {
        match b {
            Option::Some(bv) => {
                if *lv == *bv {
                    rv.clone()
                } else if *rv == *bv {
                    lv.clone()
                } else if w {
                    lv.clone()
                } else {
                    rv.clone()
                }
            },
            Option::None => {
                if w {
                    lv.clone()
                } else {
                    rv.clone()
                }
            },
        }
    }
}

fn pick_i64(b: Option<i64>, lv: i64, rv: i64, w: bool) -> (res: i64)
    ensures
        res as int == pick::<int>(
            match b {
                Option::Some(x) => Option::Some(x as int),
                Option::None => Option::None,
            },
            lv as int,
            rv as int,
            w,
        ),
{
    if lv == rv {
        lv
    } else {
        match b {
            Option::Some(bv) => {
                if lv == bv {
                    rv
                } else if rv == bv {
                    lv
                } else if w {
                    lv
                } else {
                    rv
                }
            },
            Option::None => {
                if w {
                    lv
                } else {
                    rv
                }
            },
        }
    }
}

fn pick_i32(b: Option<i32>, lv: i32, rv: i32, w: bool) -> (res: i32)
    ensures
        res as int == pick::<int>(
            match b {
                Option::Some(x) => Option::Some(x as int),
                Option::None => Option::None,
            },
            lv as int,
            rv as int,
            w,
        ),
{
    if lv == rv {
        lv
    } else {
        match b {
            Option::Some(bv) => {
                if lv == bv {
                    rv
                } else if rv == bv {
                    lv
                } else if w {
                    lv
                } else {
                    rv
                }
            },
            Option::None => {
                if w {
                    lv
                } else {
                    rv
                }
            },
        }
    }
}

fn pick_bool(b: Option<bool>, lv: bool, rv: bool, w: bool) -> (res: bool)
    ensures
        res == pick::<bool>(b, lv, rv, w),
{
    if lv == rv {
        lv
    } else {
        match b {
            Option::Some(bv) => {
                if lv == bv {
                    rv
                } else if rv == bv {
                    lv
                } else if w {
                    lv
                } else {
                    rv
                }
            },
            Option::None => {
                if w {
                    lv
                } else {
                    rv
                }
            },
        }
    }
}

fn pick_opt_string(b: Option<&Option<String>>, lv: &Option<String>, rv: &Option<String>, w: bool) -> (res: Option<
    String,
>)
    ensures
        opt_str_view(res) == pick::<Option<Seq<char>>>(
            match b {
                Option::Some(x) => Option::Some(opt_str_view(*x)),
                Option::None => Option::None,
            },
            opt_str_view(*lv),
            opt_str_view(*rv),
            w,
        ),
{
    if eq_opt_string(lv, rv) {
        clone_opt_str(lv)
    } else {
        match b {
            Option::Some(bv) => {
                if eq_opt_string(lv, bv) {
                    clone_opt_str(rv)
                } else if eq_opt_string(rv, bv) {
                    clone_opt_str(lv)
                } else if w {
                    clone_opt_str(lv)
                } else {
                    clone_opt_str(rv)
                }
            },
            Option::None => {
                if w {
                    clone_opt_str(lv)
                } else {
                    clone_opt_str(rv)
                }
            },
        }
    }
}

fn clone_opt_str(o: &Option<String>) -> (r: Option<String>)
    ensures
        opt_str_view(r) == opt_str_view(*o),
{
    match o {
        Option::None => Option::None,
        Option::Some(s) => Option::Some(s.clone()),
    }
}

fn pick_opt_i64(b: Option<Option<i64>>, lv: Option<i64>, rv: Option<i64>, w: bool) -> (res: Option<
    i64,
>)
    ensures
        opt_i64_view(res) == pick::<Option<int>>(
            match b {
                Option::Some(x) => Option::Some(opt_i64_view(x)),
                Option::None => Option::None,
            },
            opt_i64_view(lv),
            opt_i64_view(rv),
            w,
        ),
{
    if eq_opt_i64(&lv, &rv) {
        lv
    } else {
        match b {
            Option::Some(bv) => {
                if eq_opt_i64(&lv, &bv) {
                    rv
                } else if eq_opt_i64(&rv, &bv) {
                    lv
                } else if w {
                    lv
                } else {
                    rv
                }
            },
            Option::None => {
                if w {
                    lv
                } else {
                    rv
                }
            },
        }
    }
}

fn pick_opt_i32(b: Option<Option<i32>>, lv: Option<i32>, rv: Option<i32>, w: bool) -> (res: Option<
    i32,
>)
    ensures
        opt_i32_view(res) == pick::<Option<int>>(
            match b {
                Option::Some(x) => Option::Some(opt_i32_view(x)),
                Option::None => Option::None,
            },
            opt_i32_view(lv),
            opt_i32_view(rv),
            w,
        ),
{
    if eq_opt_i32(&lv, &rv) {
        lv
    } else {
        match b {
            Option::Some(bv) => {
                if eq_opt_i32(&lv, &bv) {
                    rv
                } else if eq_opt_i32(&rv, &bv) {
                    lv
                } else if w {
                    lv
                } else {
                    rv
                }
            },
            Option::None => {
                if w {
                    lv
                } else {
                    rv
                }
            },
        }
    }
}

fn pick_vec_string(b: Option<&Vec<String>>, lv: &Vec<String>, rv: &Vec<String>, w: bool) -> (res: Vec<
    String,
>)
    ensures
        res.deep_view() == pick::<Seq<Seq<char>>>(
            match b {
                Option::Some(x) => Option::Some(x.deep_view()),
                Option::None => Option::None,
            },
            lv.deep_view(),
            rv.deep_view(),
            w,
        ),
{
    if eq_string_vec(lv, rv) {
        clone_strings(lv)
    } else {
        match b {
            Option::Some(bv) => {
                if eq_string_vec(lv, bv) {
                    clone_strings(rv)
                } else if eq_string_vec(rv, bv) {
                    clone_strings(lv)
                } else if w {
                    clone_strings(lv)
                } else {
                    clone_strings(rv)
                }
            },
            Option::None => {
                if w {
                    clone_strings(lv)
                } else {
                    clone_strings(rv)
                }
            },
        }
    }
}

fn contains_label(v: &Vec<String>, x: &String) -> (r: bool)
    ensures
        r == v.deep_view().contains(x@),
{
    let mut i: usize = 0;
    while i < v.len()
        invariant
            i <= v.len(),
            forall|k: int| 0 <= k < i ==> v.deep_view()[k] != x@,
        decreases v.len() - i,
    {
        if *vstd::std_specs::vec::vec_index(v, i) == *x {
            proof {
                assert(v.deep_view()[i as int] == x@);
            }
            return true;
        }
        i = i + 1;
    }
    proof {
        if v.deep_view().contains(x@) {
            let w = choose|w: int| 0 <= w < v.deep_view().len() && v.deep_view()[w] == x@;
        }
    }
    false
}

/// Unions two label lists, left order first, duplicates dropped.
pub fn union_labels_exec(a: &Vec<String>, b: &Vec<String>) -> (res: Vec<String>)
    ensures
        res.deep_view() == union_labels(a.deep_view(), b.deep_view()),
{
    let mut acc = clone_strings(a);
    let mut k: usize = 0;
    proof {
        assert(b.deep_view().skip(0) =~= b.deep_view());
    }
    while k < b.len()
        invariant
            k <= b.len(),
            union_labels(a.deep_view(), b.deep_view()) == union_labels(
                acc.deep_view(),
                b.deep_view().skip(k as int),
            ),
        decreases b.len() - k,
    {
        let ghost pre = acc.deep_view();
        let ghost rest = b.deep_view().skip(k as int);
        proof {
            assert(rest[0] == b.deep_view()[k as int]);
            assert(b.deep_view()[k as int] == b@[k as int]@);
            assert(rest.skip(1) =~= b.deep_view().skip(k as int + 1));
        }
        if !contains_label(&acc, &b[k]) {
            acc.push(b[k].clone());
            proof {
                assert(acc.deep_view() =~= pre.push(b@[k as int]@));
            }
        }
        k = k + 1;
    }
    proof {
        assert(b.deep_view().skip(b.len() as int).len() == 0);
    }
    acc
}

fn dep_key_eq(a: &Dependency, b: &Dependency) -> (r: bool)
    ensures
        r == dep_same_key(a@, b@),
{
    a.depends_on_id == b.depends_on_id && a.type_ == b.type_
}

fn has_dep_key_exec(v: &Vec<Dependency>, d: &Dependency) -> (r: bool)
    ensures
        r == has_dep_key(v.deep_view(), d@),
{
    let mut i: usize = 0;
    while i < v.len()
        invariant
            i <= v.len(),
            forall|k: int| 0 <= k < i ==> !dep_same_key(#[trigger] v.deep_view()[k], d@),
        decreases v.len() - i,
    {
        if dep_key_eq(&v[i], d) {
            proof {
                assert(dep_same_key(v.deep_view()[i as int], d@));
            }
            return true;
        }
        proof {
            assert(v.deep_view()[i as int] == v@[i as int]@);
        }
        i = i + 1;
    }
    false
}

/// Unions two dependency lists by (target, type), left order first.
pub fn union_deps_exec(a: &Vec<Dependency>, b: &Vec<Dependency>) -> (res: Vec<Dependency>)
    ensures
        res.deep_view() == union_deps(a.deep_view(), b.deep_view()),
{
    let mut acc = clone_deps(a);
    let mut k: usize = 0;
    proof {
        assert(b.deep_view().skip(0) =~= b.deep_view());
    }
    while k < b.len()
        invariant
            k <= b.len(),
            union_deps(a.deep_view(), b.deep_view()) == union_deps(
                acc.deep_view(),
                b.deep_view().skip(k as int),
            ),
        decreases b.len() - k,
    {
        let ghost pre = acc.deep_view();
        let ghost rest = b.deep_view().skip(k as int);
        proof {
            assert(rest[0] == b.deep_view()[k as int]);
            assert(b.deep_view()[k as int] == b@[k as int]@);
            assert(rest.skip(1) =~= b.deep_view().skip(k as int + 1));
        }
        if !has_dep_key_exec(&acc, &b[k]) {
            acc.push(b[k].clone());
            proof {
                assert(acc.deep_view() =~= pre.push(b@[k as int]@));
            }
        }
        k = k + 1;
    }
    proof {
        assert(b.deep_view().skip(b.len() as int).len() == 0);
    }
    acc
}

fn com_key_eq(a: &Comment, b: &Comment) -> (r: bool)
    ensures
        r == com_same_key(a@, b@),
{
    a.author == b.author && a.text == b.text && a.created_at == b.created_at
}

fn has_com_key_exec(v: &Vec<Comment>, c: &Comment) -> (r: bool)
    ensures
        r == has_com_key(v.deep_view(), c@),
{
    let mut i: usize = 0;
    while i < v.len()
        invariant
            i <= v.len(),
            forall|k: int| 0 <= k < i ==> !com_same_key(#[trigger] v.deep_view()[k], c@),
        decreases v.len() - i,
    {
        if com_key_eq(&v[i], c) {
            proof {
                assert(com_same_key(v.deep_view()[i as int], c@));
            }
            return true;
        }
        proof {
            assert(v.deep_view()[i as int] == v@[i as int]@);
        }
        i = i + 1;
    }
    false
}

/// Unions two comment lists by (author, text, created-at), left first.
pub fn union_comments_exec(a: &Vec<Comment>, b: &Vec<Comment>) -> (res: Vec<Comment>)
    ensures
        res.deep_view() == union_comments(a.deep_view(), b.deep_view()),
{
    let mut acc = clone_comments(a);
    let mut k: usize = 0;
    proof {
        assert(b.deep_view().skip(0) =~= b.deep_view());
    }
    while k < b.len()
        invariant
            k <= b.len(),
            union_comments(a.deep_view(), b.deep_view()) == union_comments(
                acc.deep_view(),
                b.deep_view().skip(k as int),
            ),
        decreases b.len() - k,
    {
        let ghost pre = acc.deep_view();
        let ghost rest = b.deep_view().skip(k as int);
        proof {
            assert(rest[0] == b.deep_view()[k as int]);
            assert(b.deep_view()[k as int] == b@[k as int]@);
            assert(rest.skip(1) =~= b.deep_view().skip(k as int + 1));
        }
        if !has_com_key_exec(&acc, &b[k]) {
            acc.push(b[k].clone());
            proof {
                assert(acc.deep_view() =~= pre.push(b@[k as int]@));
            }
        }
        k = k + 1;
    }
    proof {
        assert(b.deep_view().skip(b.len() as int).len() == 0);
    }
    acc
}


/// Field-level merge of two records, as [`field_merge`] describes.
#[verifier::rlimit(100)]
#[verifier::spinoff_prover]
fn field_merge_exec(b: Option<&Issue>, l: &Issue, r: &Issue) -> (res: Issue)
    ensures
        res@ == field_merge(opt_issue_view(b), l@, r@),
{
    let w = l.updated_at >= r.updated_at;
    let b_title: Option<&String> = match b {
        Option::Some(x) => Option::Some(&x.title),
        Option::None => Option::None,
    };
    let v_title = pick_string(b_title, &l.title, &r.title, w);
    let b_description: Option<&String> = match b {
        Option::Some(x) => Option::Some(&x.description),
        Option::None => Option::None,
    };
    let v_description = pick_string(b_description, &l.description, &r.description, w);
    let b_design: Option<&String> = match b {
        Option::Some(x) => Option::Some(&x.design),
        Option::None => Option::None,
    };
    let v_design = pick_string(b_design, &l.design, &r.design, w);
    let b_acceptance_criteria: Option<&String> = match b {
        Option::Some(x) => Option::Some(&x.acceptance_criteria),
        Option::None => Option::None,
    };
    let v_acceptance_criteria = pick_string(b_acceptance_criteria, &l.acceptance_criteria, &r.acceptance_criteria, w);
    let b_notes: Option<&String> = match b {
        Option::Some(x) => Option::Some(&x.notes),
        Option::None => Option::None,
    };
    let v_notes = pick_string(b_notes, &l.notes, &r.notes, w);
    let b_status: Option<&String> = match b {
        Option::Some(x) => Option::Some(&x.status),
        Option::None => Option::None,
    };
    let v_status = pick_string(b_status, &l.status, &r.status, w);
    let b_priority: Option<i32> = match b {
        Option::Some(x) => Option::Some(x.priority),
        Option::None => Option::None,
    };
    let v_priority = pick_i32(b_priority, l.priority, r.priority, w);
    let b_issue_type: Option<&String> = match b {
        Option::Some(x) => Option::Some(&x.issue_type),
        Option::None => Option::None,
    };
    let v_issue_type = pick_string(b_issue_type, &l.issue_type, &r.issue_type, w);
    let b_assignee: Option<&Option<String>> = match b {
        Option::Some(x) => Option::Some(&x.assignee),
        Option::None => Option::None,
    };
    let v_assignee = pick_opt_string(b_assignee, &l.assignee, &r.assignee, w);
    let b_estimated_minutes: Option<Option<i32>> = match b {
        Option::Some(x) => Option::Some(x.estimated_minutes),
        Option::None => Option::None,
    };
    let v_estimated_minutes = pick_opt_i32(b_estimated_minutes, l.estimated_minutes, r.estimated_minutes, w);
    let b_created_at: Option<i64> = match b {
        Option::Some(x) => Option::Some(x.created_at),
        Option::None => Option::None,
    };
    let v_created_at = pick_i64(b_created_at, l.created_at, r.created_at, w);
    let b_updated_at: Option<i64> = match b {
        Option::Some(x) => Option::Some(x.updated_at),
        Option::None => Option::None,
    };
    let v_updated_at = pick_i64(b_updated_at, l.updated_at, r.updated_at, w);
    let b_closed_at: Option<Option<i64>> = match b {
        Option::Some(x) => Option::Some(x.closed_at),
        Option::None => Option::None,
    };
    let v_closed_at = pick_opt_i64(b_closed_at, l.closed_at, r.closed_at, w);
    let b_external_ref: Option<&Option<String>> = match b {
        Option::Some(x) => Option::Some(&x.external_ref),
        Option::None => Option::None,
    };
    let v_external_ref = pick_opt_string(b_external_ref, &l.external_ref, &r.external_ref, w);
    let b_sender: Option<&String> = match b {
        Option::Some(x) => Option::Some(&x.sender),
        Option::None => Option::None,
    };
    let v_sender = pick_string(b_sender, &l.sender, &r.sender, w);
    let b_ephemeral: Option<bool> = match b {
        Option::Some(x) => Option::Some(x.ephemeral),
        Option::None => Option::None,
    };
    let v_ephemeral = pick_bool(b_ephemeral, l.ephemeral, r.ephemeral, w);
    let b_replies_to: Option<&String> = match b {
        Option::Some(x) => Option::Some(&x.replies_to),
        Option::None => Option::None,
    };
    let v_replies_to = pick_string(b_replies_to, &l.replies_to, &r.replies_to, w);
    let b_relates_to: Option<&Vec<String>> = match b {
        Option::Some(x) => Option::Some(&x.relates_to),
        Option::None => Option::None,
    };
    let v_relates_to = pick_vec_string(b_relates_to, &l.relates_to, &r.relates_to, w);
    let b_duplicate_of: Option<&String> = match b {
        Option::Some(x) => Option::Some(&x.duplicate_of),
        Option::None => Option::None,
    };
    let v_duplicate_of = pick_string(b_duplicate_of, &l.duplicate_of, &r.duplicate_of, w);
    let b_superseded_by: Option<&String> = match b {
        Option::Some(x) => Option::Some(&x.superseded_by),
        Option::None => Option::None,
    };
    let v_superseded_by = pick_string(b_superseded_by, &l.superseded_by, &r.superseded_by, w);
    let b_deleted_at: Option<Option<i64>> = match b {
        Option::Some(x) => Option::Some(x.deleted_at),
        Option::None => Option::None,
    };
    let v_deleted_at = pick_opt_i64(b_deleted_at, l.deleted_at, r.deleted_at, w);
    let b_deleted_by: Option<&String> = match b {
        Option::Some(x) => Option::Some(&x.deleted_by),
        Option::None => Option::None,
    };
    let v_deleted_by = pick_string(b_deleted_by, &l.deleted_by, &r.deleted_by, w);
    let b_delete_reason: Option<&String> = match b {
        Option::Some(x) => Option::Some(&x.delete_reason),
        Option::None => Option::None,
    };
    let v_delete_reason = pick_string(b_delete_reason, &l.delete_reason, &r.delete_reason, w);
    let b_original_type: Option<&String> = match b {
        Option::Some(x) => Option::Some(&x.original_type),
        Option::None => Option::None,
    };
    let v_original_type = pick_string(b_original_type, &l.original_type, &r.original_type, w);
    let res = Issue {
        id: l.id.clone(),
        content_hash: String::new(),
        title: v_title,
        description: v_description,
        design: v_design,
        acceptance_criteria: v_acceptance_criteria,
        notes: v_notes,
        status: v_status,
        priority: v_priority,
        issue_type: v_issue_type,
        assignee: v_assignee,
        estimated_minutes: v_estimated_minutes,
        created_at: v_created_at,
        updated_at: v_updated_at,
        closed_at: v_closed_at,
        external_ref: v_external_ref,
        sender: v_sender,
        ephemeral: v_ephemeral,
        replies_to: v_replies_to,
        relates_to: v_relates_to,
        duplicate_of: v_duplicate_of,
        superseded_by: v_superseded_by,
        deleted_at: v_deleted_at,
        deleted_by: v_deleted_by,
        delete_reason: v_delete_reason,
        original_type: v_original_type,
        labels: union_labels_exec(&l.labels, &r.labels),
        dependencies: union_deps_exec(&l.dependencies, &r.dependencies),
        comments: union_comments_exec(&l.comments, &r.comments),
    };
    proof {
        assert(res@ =~= field_merge(opt_issue_view(b), l@, r@));
    }
    res
}

/// Resolution of one id present on both sides, as [`merge_both`]
/// describes.
pub fn merge_both_exec(b: Option<&Issue>, l: &Issue, r: &Issue) -> (res: Issue)
    ensures
        res@ == merge_both(opt_issue_view(b), l@, r@),
{
    if eq_issue(l, r) {
        l.clone()
    } else {
        match b {
            Option::Some(bm) => {
                if eq_issue(l, bm) {
                    r.clone()
                } else if eq_issue(r, bm) {
                    l.clone()
                } else {
                    field_merge_exec(b, l, r)
                }
            },
            Option::None => field_merge_exec(b, l, r),
        }
    }
}


/// Merges two snapshots against their common ancestor, exactly as
/// [`merge_seq`] describes: same inputs, same output, always.
pub fn merge_snapshots(base: &Snapshot, left: &Snapshot, right: &Snapshot) -> (res: Snapshot)
    requires
        left.wf(),
        right.wf(),
    ensures
        res.wf(),
        res.models() == merge_seq(base.models(), left.models(), right.models()),
{
    let ghost bm = base.models();
    let ghost lm = left.models();
    let ghost rm = right.models();
    let mut out: Vec<Issue> = Vec::new();
    let mut i: usize = 0;
    let mut j: usize = 0;
    proof {
        assert(lm.skip(0) =~= lm);
        assert(rm.skip(0) =~= rm);
        assert(out.deep_view() =~= Seq::<IssueModel>::empty());
        assert(Seq::<IssueModel>::empty() + merge_seq(bm, lm, rm) =~= merge_seq(bm, lm, rm));
    }
    loop
        invariant
            bm == base.models(),
            lm == left.models(),
            rm == right.models(),
            i <= left.issues.len(),
            j <= right.issues.len(),
            merge_seq(bm, lm, rm) == out.deep_view() + merge_seq(
                bm,
                lm.skip(i as int),
                rm.skip(j as int),
            ),
        ensures
            i == left.issues.len() && j == right.issues.len(),
            merge_seq(bm, lm, rm) == out.deep_view() + merge_seq(
                bm,
                lm.skip(i as int),
                rm.skip(j as int),
            ),
        decreases left.issues.len() - i + right.issues.len() - j,
    {
        if i >= left.issues.len() && j >= right.issues.len() {
            break;
        }
        let ghost lrest = lm.skip(i as int);
        let ghost rrest = rm.skip(j as int);
        proof {
            if i < left.issues.len() {
                assert(lrest[0] == lm[i as int]);
                assert(lm[i as int] == left.issues@[i as int]@);
                assert(lrest.skip(1) =~= lm.skip(i as int + 1));
            }
            if j < right.issues.len() {
                assert(rrest[0] == rm[j as int]);
                assert(rm[j as int] == right.issues@[j as int]@);
                assert(rrest.skip(1) =~= rm.skip(j as int + 1));
            }
        }
        let take_left: bool = if j >= right.issues.len() {
            true
        } else if i >= left.issues.len() {
            false
        } else {
            str_lt(left.issues[i].id.as_str(), right.issues[j].id.as_str())
        };
        if take_left {
            let ghost cur = lrest[0];
            let ghost pre = out.deep_view();
            let piece_kept: bool;
            match base.find_index(left.issues[i].id.as_str()) {
                Option::None => {
                    out.push(left.issues[i].clone());
                    piece_kept = true;
                },
                Option::Some(k) => {
                    proof {
                        assert(bm[k as int] == base.issues@[k as int]@);
                    }
                    if eq_issue(&left.issues[i], &base.issues[k]) {
                        piece_kept = false;
                    } else {
                        out.push(left.issues[i].clone());
                        piece_kept = true;
                    }
                },
            }
            proof {
                let piece = keep_one_side(lookup(bm, cur.id), cur);
                if piece_kept {
                    assert(out.deep_view() =~= pre.push(cur));
                    assert(pre.push(cur) =~= pre + piece);
                } else {
                    assert(out.deep_view() + piece =~= pre);
                }
                assert(merge_seq(bm, lrest, rrest) == piece + merge_seq(
                    bm,
                    lrest.skip(1),
                    rrest,
                ));
                assert(pre + (piece + merge_seq(bm, lrest.skip(1), rrest)) =~= (pre + piece)
                    + merge_seq(bm, lrest.skip(1), rrest));
            }
            i = i + 1;
        } else {
            let go_right: bool = if i >= left.issues.len() {
                true
            } else {
                str_lt(right.issues[j].id.as_str(), left.issues[i].id.as_str())
            };
            if go_right {
                let ghost cur = rrest[0];
                let ghost pre = out.deep_view();
                let piece_kept: bool;
                match base.find_index(right.issues[j].id.as_str()) {
                    Option::None => {
                        out.push(right.issues[j].clone());
                        piece_kept = true;
                    },
                    Option::Some(k) => {
                        proof {
                            assert(bm[k as int] == base.issues@[k as int]@);
                        }
                        if eq_issue(&right.issues[j], &base.issues[k]) {
                            piece_kept = false;
                        } else {
                            out.push(right.issues[j].clone());
                            piece_kept = true;
                        }
                    },
                }
                proof {
                    let piece = keep_one_side(lookup(bm, cur.id), cur);
                    if piece_kept {
                        assert(out.deep_view() =~= pre.push(cur));
                        assert(pre.push(cur) =~= pre + piece);
                    } else {
                        assert(out.deep_view() + piece =~= pre);
                    }
                    assert(merge_seq(bm, lrest, rrest) == piece + merge_seq(
                        bm,
                        lrest,
                        rrest.skip(1),
                    ));
                    assert(pre + (piece + merge_seq(bm, lrest, rrest.skip(1))) =~= (pre + piece)
                        + merge_seq(bm, lrest, rrest.skip(1)));
                }
                j = j + 1;
            } else {
                proof {
                    crate::text::lemma_lex_connex(lrest[0].id, rrest[0].id);
                    assert(lrest[0].id == rrest[0].id);
                }
                let ghost pre = out.deep_view();
                let merged: Issue;
                match base.find_index(left.issues[i].id.as_str()) {
                    Option::None => {
                        merged = merge_both_exec(
                            Option::None,
                            &left.issues[i],
                            &right.issues[j],
                        );
                    },
                    Option::Some(k) => {
                        proof {
                            assert(bm[k as int] == base.issues@[k as int]@);
                        }
                        merged = merge_both_exec(
                            Option::Some(&base.issues[k]),
                            &left.issues[i],
                            &right.issues[j],
                        );
                    },
                }
                let ghost d = merge_both(lookup(bm, lrest[0].id), lrest[0], rrest[0]);
                proof {
                    assert(merged@ == d);
                }
                out.push(merged);
                proof {
                    assert(out.deep_view() =~= pre.push(d));
                    assert(merge_seq(bm, lrest, rrest) == seq![d] + merge_seq(
                        bm,
                        lrest.skip(1),
                        rrest.skip(1),
                    ));
                    assert(pre + (seq![d] + merge_seq(bm, lrest.skip(1), rrest.skip(1))) =~= (
                    pre.push(d)) + merge_seq(bm, lrest.skip(1), rrest.skip(1)));
                }
                i = i + 1;
                j = j + 1;
            }
        }
    }
    proof {
        assert(lm.skip(i as int).len() == 0);
        assert(rm.skip(j as int).len() == 0);
        assert(merge_seq(bm, lm.skip(i as int), rm.skip(j as int)) =~= Seq::<
            IssueModel,
        >::empty());
        assert(out.deep_view() + Seq::<IssueModel>::empty() =~= out.deep_view());
        lemma_merge_wf(bm, lm, rm);
    }
    Snapshot { issues: out }
}


/// Which of the three snapshots failed to parse.
#[derive(Clone, Copy, Debug, PartialEq, Eq, Structural)]
pub enum MergeFault {
    Base,
    Left,
    Right,
}

/// What a three-way merge of log texts yields: the merged canonical log,
/// or nothing when one text does not parse.
pub open spec fn sp_merge_logs(b: Seq<char>, l: Seq<char>, r: Seq<char>) -> Option<Seq<char>> {
    match crate::codec::sp_log(b) {
        Option::None => Option::None,
        Option::Some(bl) => match crate::codec::sp_log(l) {
            Option::None => Option::None,
            Option::Some(ll) => match crate::codec::sp_log(r) {
                Option::None => Option::None,
                Option::Some(rl) => Option::Some(
                    crate::codec::render_log(
                        merge_seq(
                            crate::snapshot::canon(bl),
                            crate::snapshot::canon(ll),
                            crate::snapshot::canon(rl),
                        ),
                    ),
                ),
            },
        },
    }
}

/// Merges three log texts. A text that does not parse fails the whole
/// merge and names the snapshot at fault; nothing is written otherwise.
pub fn merge3way(base_text: &str, left_text: &str, right_text: &str) -> (r: Result<
    String,
    MergeFault,
>)
    ensures
        r is Ok <==> sp_merge_logs(base_text@, left_text@, right_text@) is Some,
        r matches Result::Ok(s) ==> sp_merge_logs(base_text@, left_text@, right_text@)
            == Option::Some(s@),
        r matches Result::Err(f) ==> {
            &&& f is Base <==> crate::codec::sp_log(base_text@) is None
            &&& f is Left <==> crate::codec::sp_log(base_text@) is Some && crate::codec::sp_log(
                left_text@,
            ) is None
            &&& f is Right <==> crate::codec::sp_log(base_text@) is Some && crate::codec::sp_log(
                left_text@,
            ) is Some && crate::codec::sp_log(right_text@) is None
        },
{
    let b = match crate::snapshot::parse_snapshot(base_text) {
        Option::Some(s) => s,
        Option::None => {
            return Result::Err(MergeFault::Base);
        },
    };
    let l = match crate::snapshot::parse_snapshot(left_text) {
        Option::Some(s) => s,
        Option::None => {
            return Result::Err(MergeFault::Left);
        },
    };
    let r = match crate::snapshot::parse_snapshot(right_text) {
        Option::Some(s) => s,
        Option::None => {
            return Result::Err(MergeFault::Right);
        },
    };
    let merged = merge_snapshots(&b, &l, &r);
    Result::Ok(merged.to_log())
}

/// Merging a canonical log with itself over itself reproduces it byte for
/// byte.
pub proof fn lemma_merge_log_idempotent(ms: Seq<IssueModel>)
    requires
        snap_wf(ms),
    ensures
        sp_merge_logs(
            crate::codec::render_log(ms),
            crate::codec::render_log(ms),
            crate::codec::render_log(ms),
        ) == Option::Some(crate::codec::render_log(ms)),
{
    crate::snapshot::lemma_snapshot_roundtrip(ms);
    lemma_merge_idempotent(ms);
}

/// Merging local changes against an unchanged remote returns the local
/// log byte for byte.
pub proof fn lemma_merge_log_left_identity(b: Seq<IssueModel>, l: Seq<IssueModel>)
    requires
        snap_wf(b),
        snap_wf(l),
    ensures
        sp_merge_logs(
            crate::codec::render_log(b),
            crate::codec::render_log(l),
            crate::codec::render_log(b),
        ) == Option::Some(crate::codec::render_log(l)),
{
    crate::snapshot::lemma_snapshot_roundtrip(b);
    crate::snapshot::lemma_snapshot_roundtrip(l);
    lemma_merge_left_identity(b, l);
}

/// Merging an unchanged local log against remote changes returns the
/// remote log byte for byte.
pub proof fn lemma_merge_log_right_identity(b: Seq<IssueModel>, r: Seq<IssueModel>)
    requires
        snap_wf(b),
        snap_wf(r),
    ensures
        sp_merge_logs(
            crate::codec::render_log(b),
            crate::codec::render_log(b),
            crate::codec::render_log(r),
        ) == Option::Some(crate::codec::render_log(r)),
{
    crate::snapshot::lemma_snapshot_roundtrip(b);
    crate::snapshot::lemma_snapshot_roundtrip(r);
    lemma_merge_right_identity(b, r);
}

} // verus!
