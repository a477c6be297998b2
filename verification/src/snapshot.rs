//! A snapshot: one version of the canonical log held as records sorted by
//! id with no duplicate. Parsing a log canonicalizes it (within one
//! snapshot the last occurrence of an id wins); rendering emits records in
//! id order, so equal snapshots always render byte for byte the same.

use crate::model::{wf_issue, Issue, IssueModel};
use crate::text::{lemma_lex_asym, lemma_lex_connex, lemma_lex_trans, lex_lt, str_eq, str_lt};
use vstd::prelude::*;

verus! {

/// Record ids strictly ascend: sorted with no duplicate.
pub open spec fn ids_sorted(ms: Seq<IssueModel>) -> bool {
    forall|i: int, j: int| 0 <= i < j < ms.len() ==> lex_lt(ms[i].id, ms[j].id)
}

/// A well-formed snapshot content: sorted unique ids, machine-sized
/// numbers, and no content hash (the hash is never part of the log).
pub open spec fn snap_wf(ms: Seq<IssueModel>) -> bool {
    &&& ids_sorted(ms)
    &&& forall|i: int|
        0 <= i < ms.len() ==> wf_issue(#[trigger] ms[i]) && ms[i].content_hash
            == Seq::<char>::empty()
}

/// Inserts a record into a sorted sequence by id, replacing the record
/// that already carries the same id.
pub open spec fn upsert(ms: Seq<IssueModel>, m: IssueModel) -> Seq<IssueModel>
    decreases ms.len(),
{
    if ms.len() == 0 {
        seq![m]
    } else if lex_lt(m.id, ms[0].id) {
        seq![m] + ms
    } else if m.id == ms[0].id {
        seq![m] + ms.skip(1)
    } else {
        seq![ms[0]] + upsert(ms.skip(1), m)
    }
}

/// Canonicalizes a record list: upserts in order, so for a repeated id the
/// last occurrence wins, and the result is sorted.
pub open spec fn canon(list: Seq<IssueModel>) -> Seq<IssueModel>
    decreases list.len(),
{
    if list.len() == 0 {
        Seq::<IssueModel>::empty()
    } else {
        upsert(canon(list.drop_last()), list.last())
    }
}

/// The record that carries `id`, if any.
pub open spec fn lookup(ms: Seq<IssueModel>, id: Seq<char>) -> Option<IssueModel>
    decreases ms.len(),
{
    if ms.len() == 0 {
        Option::None
    } else if ms[0].id == id {
        Option::Some(ms[0])
    } else {
        lookup(ms.skip(1), id)
    }
}

/// Every record of an upsert result is the new record or an old one, the
/// result stays sorted, and its ids are the old ids plus the new one.
pub proof fn lemma_upsert_props(ms: Seq<IssueModel>, m: IssueModel)
    requires
        ids_sorted(ms),
    ensures
        ids_sorted(upsert(ms, m)),
        forall|k: int|
            0 <= k < upsert(ms, m).len() ==> upsert(ms, m)[k] == m || ms.contains(
                #[trigger] upsert(ms, m)[k],
            ),
        upsert(ms, m).contains(m),
        forall|k: int|
            0 <= k < ms.len() && ms[k].id != m.id ==> upsert(ms, m).contains(#[trigger] ms[k]),
    decreases ms.len(),
{
    let up = upsert(ms, m);
    if ms.len() == 0 {
        assert(up[0] == m);
    } else if lex_lt(m.id, ms[0].id) {
        assert(up[0] == m);
        assert forall|i: int, j: int| 0 <= i < j < up.len() implies lex_lt(
            up[i].id,
            up[j].id,
        ) by {
            if i == 0 {
                if j == 1 {
                } else {
                    lemma_lex_trans(m.id, ms[0].id, ms[j - 1].id);
                }
            }
        }
        assert forall|k: int| 0 <= k < ms.len() && ms[k].id != m.id implies up.contains(
            #[trigger] ms[k],
        ) by {
            assert(up[k + 1] == ms[k]);
        }
    } else if m.id == ms[0].id {
        assert(up[0] == m);
        assert forall|k: int| 0 <= k < up.len() implies up[k] == m || ms.contains(
            #[trigger] up[k],
        ) by {
            if k > 0 {
                assert(up[k] == ms[k]);
            }
        }
        assert forall|k: int| 0 <= k < ms.len() && ms[k].id != m.id implies up.contains(
            #[trigger] ms[k],
        ) by {
            assert(k > 0);
            assert(up[k] == ms[k]);
        }
    } else {
        lemma_lex_connex(m.id, ms[0].id);
        assert(lex_lt(ms[0].id, m.id));
        assert(ids_sorted(ms.skip(1))) by {
            assert forall|i: int, j: int| 0 <= i < j < ms.skip(1).len() implies lex_lt(
                ms.skip(1)[i].id,
                ms.skip(1)[j].id,
            ) by {
                assert(ms.skip(1)[i] == ms[i + 1]);
                assert(ms.skip(1)[j] == ms[j + 1]);
            }
        }
        lemma_upsert_props(ms.skip(1), m);
        let sub = upsert(ms.skip(1), m);
        assert(up[0] == ms[0]);
        assert forall|k: int| 0 <= k < up.len() implies up[k] == m || ms.contains(
            #[trigger] up[k],
        ) by {
            if k > 0 {
                assert(up[k] == sub[k - 1]);
                if sub[k - 1] == m {
                } else {
                    assert(ms.skip(1).contains(sub[k - 1]));
                    let w = choose|w: int|
                        0 <= w < ms.skip(1).len() && ms.skip(1)[w] == sub[k - 1];
                    assert(ms[w + 1] == sub[k - 1]);
                }
            }
        }
        assert forall|i: int, j: int| 0 <= i < j < up.len() implies lex_lt(
            up[i].id,
            up[j].id,
        ) by {
            if i == 0 {
                assert(up[j] == sub[j - 1]);
                if sub[j - 1] == m {
                } else {
                    let w = choose|w: int|
                        0 <= w < ms.skip(1).len() && ms.skip(1)[w] == sub[j - 1];
                    assert(ms[w + 1] == sub[j - 1]);
                    assert(lex_lt(ms[0].id, ms[w + 1].id));
                }
            } else {
                assert(up[i] == sub[i - 1]);
                assert(up[j] == sub[j - 1]);
            }
        }
        assert(up.contains(m)) by {
            let w = choose|w: int| 0 <= w < sub.len() && sub[w] == m;
            assert(up[w + 1] == m);
        }
        assert forall|k: int| 0 <= k < ms.len() && ms[k].id != m.id implies up.contains(
            #[trigger] ms[k],
        ) by {
            if k == 0 {
                assert(up[0] == ms[0]);
            } else {
                assert(ms.skip(1)[k - 1] == ms[k]);
                assert(sub.contains(ms[k]));
                let w = choose|w: int| 0 <= w < sub.len() && sub[w] == ms[k];
                assert(up[w + 1] == ms[k]);
            }
        }
    }
}

/// Upserting a record larger than every present id appends it.
pub proof fn lemma_upsert_append(ms: Seq<IssueModel>, m: IssueModel)
    requires
        forall|i: int| 0 <= i < ms.len() ==> lex_lt(#[trigger] ms[i].id, m.id),
    ensures
        upsert(ms, m) == ms.push(m),
    decreases ms.len(),
{
    if ms.len() == 0 {
        assert(upsert(ms, m) =~= ms.push(m));
    } else {
        lemma_lex_asym(ms[0].id, m.id);
        assert(!lex_lt(m.id, ms[0].id));
        assert(m.id != ms[0].id);
        assert forall|i: int| 0 <= i < ms.skip(1).len() implies lex_lt(
            #[trigger] ms.skip(1)[i].id,
            m.id,
        ) by {
            assert(ms.skip(1)[i] == ms[i + 1]);
        }
        lemma_upsert_append(ms.skip(1), m);
        assert(seq![ms[0]] + ms.skip(1).push(m) =~= ms.push(m));
    }
}

/// Canonicalizing an already canonical sequence changes nothing.
pub proof fn lemma_canon_sorted(ms: Seq<IssueModel>)
    requires
        ids_sorted(ms),
    ensures
        canon(ms) == ms,
    decreases ms.len(),
{
    if ms.len() > 0 {
        let p = ms.drop_last();
        assert(ids_sorted(p)) by {
            assert forall|i: int, j: int| 0 <= i < j < p.len() implies lex_lt(
                p[i].id,
                p[j].id,
            ) by {
                assert(p[i] == ms[i]);
                assert(p[j] == ms[j]);
            }
        }
        lemma_canon_sorted(p);
        assert forall|i: int| 0 <= i < p.len() implies lex_lt(
            #[trigger] p[i].id,
            ms.last().id,
        ) by {
            assert(p[i] == ms[i]);
        }
        lemma_upsert_append(p, ms.last());
        assert(p.push(ms.last()) =~= ms);
    }
}


/// When the first `i` records do not carry `id`, search continues behind
/// them.
pub proof fn lemma_lookup_skip(ms: Seq<IssueModel>, id: Seq<char>, i: int)
    requires
        0 <= i <= ms.len(),
        forall|j: int| 0 <= j < i ==> ms[j].id != id,
    ensures
        lookup(ms, id) == lookup(ms.skip(i), id),
    decreases i,
{
    if i > 0 {
        assert(ms.len() > 0);
        assert(ms[0].id != id);
        assert forall|j: int| 0 <= j < i - 1 implies ms.skip(1)[j].id != id by {
            assert(ms.skip(1)[j] == ms[j + 1]);
        }
        lemma_lookup_skip(ms.skip(1), id, i - 1);
        assert(ms.skip(1).skip(i - 1) =~= ms.skip(i));
    } else {
        assert(ms.skip(0) =~= ms);
    }
}

/// Where an upsert lands: replacement at the matching id, insertion before
/// the first larger id, or an append at the end.
pub proof fn lemma_upsert_split(ms: Seq<IssueModel>, m: IssueModel, k: int)
    requires
        ids_sorted(ms),
        0 <= k <= ms.len(),
        forall|j: int| 0 <= j < k ==> lex_lt(#[trigger] ms[j].id, m.id),
        k < ms.len() ==> !lex_lt(ms[k].id, m.id),
    ensures
        k < ms.len() && ms[k].id == m.id ==> upsert(ms, m) == ms.update(k, m),
        k < ms.len() && ms[k].id != m.id ==> upsert(ms, m) == ms.take(k) + seq![m] + ms.skip(k),
        k == ms.len() ==> upsert(ms, m) == ms.push(m),
    decreases k,
{
    if k == ms.len() {
        lemma_upsert_append(ms, m);
    } else if k == 0 {
        if ms[0].id == m.id {
            assert(seq![m] + ms.skip(1) =~= ms.update(0, m));
        } else {
            lemma_lex_connex(m.id, ms[0].id);
            assert(lex_lt(m.id, ms[0].id));
            assert(seq![m] + ms =~= ms.take(0) + seq![m] + ms.skip(0));
        }
    } else {
        assert(lex_lt(ms[0].id, m.id));
        lemma_lex_asym(ms[0].id, m.id);
        assert(ids_sorted(ms.skip(1))) by {
            assert forall|i: int, j: int| 0 <= i < j < ms.skip(1).len() implies lex_lt(
                ms.skip(1)[i].id,
                ms.skip(1)[j].id,
            ) by {
                assert(ms.skip(1)[i] == ms[i + 1]);
                assert(ms.skip(1)[j] == ms[j + 1]);
            }
        }
        assert forall|j: int| 0 <= j < k - 1 implies lex_lt(
            #[trigger] ms.skip(1)[j].id,
            m.id,
        ) by {
            assert(ms.skip(1)[j] == ms[j + 1]);
        }
        assert(k - 1 < ms.skip(1).len() ==> !lex_lt(ms.skip(1)[k - 1].id, m.id)) by {
            assert(ms.skip(1)[k - 1] == ms[k]);
        }
        lemma_upsert_split(ms.skip(1), m, k - 1);
        if ms[k].id == m.id {
            assert(ms.skip(1)[k - 1] == ms[k]);
            assert(seq![ms[0]] + ms.skip(1).update(k - 1, m) =~= ms.update(k, m));
        } else {
            assert(seq![ms[0]] + (ms.skip(1).take(k - 1) + seq![m] + ms.skip(1).skip(k - 1))
                =~= ms.take(k) + seq![m] + ms.skip(k));
        }
    }
}

/// Clears the content hash of every record in a list of models.
pub open spec fn strip_all(list: Seq<IssueModel>) -> Seq<IssueModel> {
    list.map_values(|m: IssueModel| crate::codec::strip_hash(m))
}

/// One snapshot of the canonical log: its records sorted by id, each id
/// held once, every content hash empty.
pub struct Snapshot {
    pub issues: Vec<Issue>,
}

impl Snapshot {
    /// The record models, in id order.
    pub open spec fn models(&self) -> Seq<IssueModel> {
        self.issues.deep_view()
    }

    /// The snapshot invariant.
    pub open spec fn wf(&self) -> bool {
        snap_wf(self.models())
    }

    /// An empty snapshot.
    pub fn new() -> (r: Snapshot)
        ensures
            r.wf(),
            r.models() == Seq::<IssueModel>::empty(),
    {
        let r = Snapshot { issues: Vec::new() };
        proof {
            assert(r.models() =~= Seq::<IssueModel>::empty());
        }
        r
    }

    /// Inserts or replaces one record by id; the content hash is cleared,
    /// since it is no part of a snapshot.
    pub fn upsert_issue(&mut self, iss: Issue)
        requires
            old(self).wf(),
        ensures
            final(self).wf(),
            final(self).models() == upsert(
                old(self).models(),
                crate::codec::strip_hash(iss@),
            ),
    {
        let cleaned = Issue { content_hash: String::new(), ..iss };
        let ghost m = crate::codec::strip_hash(iss@);
        proof {
            assert(cleaned@ =~= m);
            crate::model::lemma_issue_view_wf(&cleaned);
        }
        let ghost ms = self.models();
        let mut k: usize = 0;
        loop
            invariant
                self.issues == old(self).issues,
                ms == self.models(),
                cleaned@ == m,
                k <= self.issues.len(),
                forall|j: int| 0 <= j < k ==> lex_lt(#[trigger] ms[j].id, m.id),
            ensures
                self.issues == old(self).issues,
                k <= self.issues.len(),
                forall|j: int| 0 <= j < k ==> lex_lt(#[trigger] ms[j].id, m.id),
                k < self.issues.len() ==> !lex_lt(ms[k as int].id, m.id),
            decreases self.issues.len() - k,
        {
            if k >= self.issues.len() {
                break;
            }
            proof {
                assert(ms[k as int].id == self.issues@[k as int]@.id);
            }
            if !str_lt(self.issues[k].id.as_str(), cleaned.id.as_str()) {
                break;
            }
            k = k + 1;
        }
        proof {
            if k < self.issues.len() {
                assert(ms[k as int].id == self.issues@[k as int]@.id);
            }
            lemma_upsert_split(ms, m, k as int);
            lemma_upsert_props(ms, m);
        }
        if k < self.issues.len() && str_eq(self.issues[k].id.as_str(), cleaned.id.as_str()) {
            self.issues.remove(k);
            self.issues.insert(k, cleaned);
            proof {
                assert(self.models() =~= ms.update(k as int, m));
            }
        } else if k < self.issues.len() {
            self.issues.insert(k, cleaned);
            proof {
                assert(self.models() =~= ms.take(k as int) + seq![m] + ms.skip(k as int));
            }
        } else {
            self.issues.push(cleaned);
            proof {
                assert(self.models() =~= ms.push(m));
            }
        }
        proof {
            let up = upsert(ms, m);
            assert forall|i: int|
                0 <= i < up.len() implies wf_issue(#[trigger] up[i]) && up[i].content_hash
                == Seq::<char>::empty() by {
                if up[i] == m {
                } else {
                    assert(ms.contains(up[i]));
                    let w = choose|w: int| 0 <= w < ms.len() && ms[w] == up[i];
                }
            }
        }
    }

    /// Finds the index of the record with exactly this id.
    pub fn find_index(&self, id: &str) -> (r: Option<usize>)
        ensures
            match r {
                Option::Some(k) => k < self.models().len() && self.models()[k as int].id == id@
                    && lookup(self.models(), id@) == Option::Some(self.models()[k as int]),
                Option::None => lookup(self.models(), id@) is None,
            },
    {
        let ghost ms = self.models();
        let mut k: usize = 0;
        while k < self.issues.len()
            invariant
                ms == self.models(),
                k <= self.issues.len(),
                forall|j: int| 0 <= j < k ==> ms[j].id != id@,
            decreases self.issues.len() - k,
        {
            proof {
                assert(ms[k as int].id == self.issues@[k as int]@.id);
            }
            if str_eq(self.issues[k].id.as_str(), id) {
                proof {
                    lemma_lookup_skip(ms, id@, k as int);
                    assert(ms.skip(k as int)[0] == ms[k as int]);
                }
                return Option::Some(k);
            }
            k = k + 1;
        }
        proof {
            lemma_lookup_skip(ms, id@, k as int);
            assert(ms.skip(k as int).len() == 0);
        }
        Option::None
    }

    /// Builds a snapshot from records in reading order: for a repeated id
    /// the last record wins.
    pub fn from_records(list: Vec<Issue>) -> (r: Snapshot)
        ensures
            r.wf(),
            r.models() == canon(strip_all(list.deep_view())),
    {
        let ghost mapped = strip_all(list.deep_view());
        let mut snap = Snapshot::new();
        let mut i: usize = 0;
        proof {
            assert(mapped.take(0) =~= Seq::<IssueModel>::empty());
            assert(canon(mapped.take(0)) == Seq::<IssueModel>::empty());
        }
        while i < list.len()
            invariant
                mapped == strip_all(list.deep_view()),
                i <= list.len(),
                snap.wf(),
                snap.models() == canon(mapped.take(i as int)),
            decreases list.len() - i,
        {
            proof {
                assert(mapped.take(i + 1).drop_last() =~= mapped.take(i as int));
                assert(mapped.take(i + 1).last() == mapped[i as int]);
                assert(mapped[i as int] == crate::codec::strip_hash(list.deep_view()[i as int]));
                assert(list.deep_view()[i as int] == list@[i as int]@);
            }
            snap.upsert_issue(list[i].clone());
            i = i + 1;
        }
        proof {
            assert(mapped.take(list.len() as int) =~= mapped);
        }
        snap
    }

    /// Renders the snapshot as the canonical log text.
    pub fn to_log(&self) -> (r: String)
        ensures
            r@ == crate::codec::render_log(self.models()),
    {
        crate::codec::render_log_string(&self.issues)
    }
}

/// Parses a log text into a snapshot. Fails exactly when some record of
/// the text does not parse; for a repeated id the last record wins.
pub fn parse_snapshot(s: &str) -> (r: Option<Snapshot>)
    ensures
        r is Some <==> crate::codec::sp_log(s@) is Some,
        r matches Option::Some(snap) ==> snap.wf() && (crate::codec::sp_log(s@)
            matches Option::Some(ms) && snap.models() == canon(ms)),
{
    match crate::codec::p_log(s) {
        Option::None => Option::None,
        Option::Some(list) => {
            proof {
                crate::codec::lemma_sp_log_wf(s@);
                let ms = crate::codec::sp_log(s@)->Some_0;
                assert(strip_all(ms) =~= ms) by {
                    assert forall|i: int| 0 <= i < ms.len() implies strip_all(ms)[i] == ms[i] by {
                        assert(strip_all(ms)[i] == crate::codec::strip_hash(ms[i]));
                        assert(crate::codec::strip_hash(ms[i]) =~= ms[i]);
                    }
                }
            }
            Option::Some(Snapshot::from_records(list))
        },
    }
}

/// A snapshot rendered and parsed again comes back unchanged.
pub proof fn lemma_snapshot_roundtrip(ms: Seq<IssueModel>)
    requires
        snap_wf(ms),
    ensures
        crate::codec::sp_log(crate::codec::render_log(ms)) == Option::Some(ms),
        canon(ms) == ms,
{
    crate::codec::lemma_sp_log_inv(ms);
    lemma_canon_sorted(ms);
}


/// In a sorted snapshot, looking up the id of the record at `i` finds that
/// record.
pub proof fn lemma_lookup_at(ms: Seq<IssueModel>, i: int)
    requires
        ids_sorted(ms),
        0 <= i < ms.len(),
    ensures
        lookup(ms, ms[i].id) == Option::Some(ms[i]),
    decreases i,
{
    if i == 0 {
    } else {
        assert(lex_lt(ms[0].id, ms[i].id));
        lemma_lex_asym(ms[0].id, ms[i].id);
        assert(ids_sorted(ms.skip(1))) by {
            assert forall|a: int, b: int| 0 <= a < b < ms.skip(1).len() implies lex_lt(
                ms.skip(1)[a].id,
                ms.skip(1)[b].id,
            ) by {
                assert(ms.skip(1)[a] == ms[a + 1]);
                assert(ms.skip(1)[b] == ms[b + 1]);
            }
        }
        assert(ms.skip(1)[i - 1] == ms[i]);
        lemma_lookup_at(ms.skip(1), i - 1);
    }
}

/// What a lookup result means: a found record is a member carrying the
/// id; a missing id is carried by no member.
pub proof fn lemma_lookup_mem(ms: Seq<IssueModel>, id: Seq<char>)
    ensures
        lookup(ms, id) matches Option::Some(x) ==> x.id == id && ms.contains(x),
        lookup(ms, id) is None ==> forall|k: int| 0 <= k < ms.len() ==> (#[trigger] ms[k]).id
            != id,
    decreases ms.len(),
{
    if ms.len() > 0 && ms[0].id != id {
        lemma_lookup_mem(ms.skip(1), id);
        if lookup(ms, id) is Some {
            let x = lookup(ms, id)->Some_0;
            assert(ms.skip(1).contains(x));
            let w = choose|w: int| 0 <= w < ms.skip(1).len() && ms.skip(1)[w] == x;
            assert(ms[w + 1] == x);
        } else {
            assert forall|k: int| 0 <= k < ms.len() implies (#[trigger] ms[k]).id != id by {
                if k > 0 {
                    assert(ms.skip(1)[k - 1] == ms[k]);
                }
            }
        }
    }
}

} // verus!
