//! The in-memory issue store: the authoritative record set, the dirty set
//! of ids changed since the last export, process configuration, and the
//! change-detection fingerprint of the last exported log.
//!
//! Export renders the full record set as the canonical log and clears the
//! dirty set; import parses a log and applies it record by record, where
//! labels and dependencies are replaced and comments are unioned by
//! (author, text). A log with any unparseable record changes nothing.

use crate::codec::{render_log, sp_log, strip_hash};
use crate::hashing::{hex_encode, hex_of, sha256_of, sha256_str};
use crate::model::{clone_comments, opt_str_view, Comment, CommentModel, Issue, IssueModel};
use crate::snapshot::{lookup, snap_wf, upsert, Snapshot};
use crate::text::{is_prefix, str_eq, str_starts_with};
use vstd::prelude::*;

verus! {

/// A typed store failure.
#[derive(Clone, Copy, Debug, PartialEq, Eq, Structural)]
pub enum StoreError {
    /// A record with this id already exists.
    DuplicateId,
    /// A line of the imported log did not parse as a record.
    BadRecord,
}

/// Model of one configuration entry.
pub struct CfgModel {
    pub key: Seq<char>,
    pub value: Seq<char>,
}

/// One configuration entry.
pub struct ConfigEntry {
    pub key: String,
    pub value: String,
}

impl DeepView for ConfigEntry {
    type V = CfgModel;

    open spec fn deep_view(&self) -> CfgModel {
        CfgModel { key: self.key@, value: self.value@ }
    }
}

impl View for ConfigEntry {
    type V = CfgModel;

    open spec fn view(&self) -> CfgModel {
        self.deep_view()
    }
}

impl Clone for ConfigEntry {
    /// Clones the entry, preserving its model.
    fn clone(&self) -> (r: ConfigEntry)
        ensures
            r@ == self@,
    {
        ConfigEntry { key: self.key.clone(), value: self.value.clone() }
    }
}

/// The value stored under `key`, if any.
pub open spec fn cfg_lookup(cs: Seq<CfgModel>, key: Seq<char>) -> Option<Seq<char>>
    decreases cs.len(),
{
    if cs.len() == 0 {
        Option::None
    } else if cs[0].key == key {
        Option::Some(cs[0].value)
    } else {
        cfg_lookup(cs.skip(1), key)
    }
}

/// Every configuration key is held once.
pub open spec fn cfg_keys_unique(cs: Seq<CfgModel>) -> bool {
    forall|i: int, j: int| 0 <= i < j < cs.len() ==> cs[i].key != cs[j].key
}

proof fn lemma_cfg_lookup_skip(cs: Seq<CfgModel>, key: Seq<char>, i: int)
    requires
        0 <= i <= cs.len(),
        forall|j: int| 0 <= j < i ==> cs[j].key != key,
    ensures
        cfg_lookup(cs, key) == cfg_lookup(cs.skip(i), key),
    decreases i,
{
    if i > 0 {
        assert(cs[0].key != key);
        assert forall|j: int| 0 <= j < i - 1 implies cs.skip(1)[j].key != key by {
            assert(cs.skip(1)[j] == cs[j + 1]);
        }
        lemma_cfg_lookup_skip(cs.skip(1), key, i - 1);
        assert(cs.skip(1).skip(i - 1) =~= cs.skip(i));
    } else {
        assert(cs.skip(0) =~= cs);
    }
}

proof fn lemma_cfg_update(cs: Seq<CfgModel>, i: int, e: CfgModel, k2: Seq<char>)
    requires
        0 <= i < cs.len(),
        cs[i].key == e.key,
        forall|j: int| 0 <= j < cs.len() && j != i ==> cs[j].key != cs[i].key,
    ensures
        cfg_lookup(cs.update(i, e), k2) == if k2 == e.key {
            Option::Some(e.value)
        } else {
            cfg_lookup(cs, k2)
        },
    decreases i,
{
    let up = cs.update(i, e);
    if i == 0 {
        assert(up[0] == e);
        if k2 == e.key {
        } else {
            assert(up.skip(1) =~= cs.skip(1));
        }
    } else {
        assert(up[0] == cs[0]);
        assert(cs[0].key != e.key);
        if k2 == cs[0].key {
        } else {
            assert(up.skip(1) =~= cs.skip(1).update(i - 1, e));
            assert(cs.skip(1)[i - 1] == cs[i]);
            assert forall|j: int|
                0 <= j < cs.skip(1).len() && j != i - 1 implies (#[trigger] cs.skip(1)[j]).key
                != cs.skip(1)[i - 1].key by {
                assert(cs.skip(1)[j] == cs[j + 1]);
            }
            lemma_cfg_update(cs.skip(1), i - 1, e, k2);
        }
    }
}

proof fn lemma_cfg_push(cs: Seq<CfgModel>, e: CfgModel, k2: Seq<char>)
    requires
        forall|j: int| 0 <= j < cs.len() ==> (#[trigger] cs[j]).key != e.key,
    ensures
        cfg_lookup(cs.push(e), k2) == if k2 == e.key {
            Option::Some(e.value)
        } else {
            cfg_lookup(cs, k2)
        },
    decreases cs.len(),
{
    let up = cs.push(e);
    if cs.len() == 0 {
        assert(up[0] == e);
        if k2 != e.key {
            assert(up.skip(1) =~= Seq::<CfgModel>::empty());
            assert(cfg_lookup(up, k2) == cfg_lookup(up.skip(1), k2));
            assert(cfg_lookup(up.skip(1), k2) is None);
            assert(cfg_lookup(cs, k2) is None);
        } else {
            assert(up[0].key == k2);
            assert(cfg_lookup(up, k2) == Option::Some(e.value));
        }
    } else {
        assert(up[0] == cs[0]);
        assert(cs[0].key != e.key);
        if k2 == cs[0].key {
            assert(cfg_lookup(up, k2) == Option::Some(cs[0].value));
            assert(cfg_lookup(cs, k2) == Option::Some(cs[0].value));
            assert(k2 != e.key);
        } else {
            assert(up.skip(1) =~= cs.skip(1).push(e));
            assert forall|j: int|
                0 <= j < cs.skip(1).len() implies (#[trigger] cs.skip(1)[j]).key != e.key by {
                assert(cs.skip(1)[j] == cs[j + 1]);
            }
            lemma_cfg_push(cs.skip(1), e, k2);
        }
    }
}

/// Two comments with the same (author, text) key: the de-duplication key
/// of import.
pub open spec fn com_at_key(a: CommentModel, b: CommentModel) -> bool {
    a.author == b.author && a.text == b.text
}

pub open spec fn has_com_at_key(cs: Seq<CommentModel>, c: CommentModel) -> bool {
    exists|i: int| 0 <= i < cs.len() && com_at_key(#[trigger] cs[i], c)
}

/// Comments already present stay; imported comments whose (author, text)
/// is new are appended.
pub open spec fn union_comments_at(a: Seq<CommentModel>, b: Seq<CommentModel>) -> Seq<CommentModel>
    decreases b.len(),
{
    if b.len() == 0 {
        a
    } else {
        union_comments_at(
            if has_com_at_key(a, b[0]) {
                a
            } else {
                a.push(b[0])
            },
            b.skip(1),
        )
    }
}

/// What one imported record becomes: labels and dependencies replaced,
/// comments unioned against the present record by (author, text).
pub open spec fn import_entry(prev: Option<IssueModel>, rec: IssueModel) -> IssueModel {
    match prev {
        Option::None => strip_hash(rec),
        Option::Some(o) => IssueModel {
            comments: union_comments_at(o.comments, rec.comments),
            content_hash: Seq::<char>::empty(),
            ..rec
        },
    }
}

/// Applies imported records in reading order, upserting by id.
pub open spec fn apply_import(ms: Seq<IssueModel>, recs: Seq<IssueModel>) -> Seq<IssueModel>
    decreases recs.len(),
{
    if recs.len() == 0 {
        ms
    } else {
        apply_import(upsert(ms, import_entry(lookup(ms, recs[0].id), recs[0])), recs.skip(1))
    }
}

/// The record, if any, whose id begins with the query; the first such in
/// id order.
pub open spec fn first_prefix_match(ms: Seq<IssueModel>, q: Seq<char>) -> Option<IssueModel>
    decreases ms.len(),
{
    if ms.len() == 0 {
        Option::None
    } else if is_prefix(q, ms[0].id) {
        Option::Some(ms[0])
    } else {
        first_prefix_match(ms.skip(1), q)
    }
}

/// How a lookup query resolves: a short query matches by prefix, a full
/// 36-character query matches exactly.
pub open spec fn get_spec(ms: Seq<IssueModel>, q: Seq<char>) -> Option<IssueModel> {
    if q.len() < 36 {
        first_prefix_match(ms, q)
    } else {
        lookup(ms, q)
    }
}


/// The view of an optional filter argument.
pub open spec fn opt_filter_view(o: Option<&str>) -> Option<Seq<char>> {
    match o {
        Option::None => Option::None,
        Option::Some(v) => Option::Some(v@),
    }
}

pub open spec fn opt_i32_filter_view(o: Option<i32>) -> Option<int> {
    match o {
        Option::None => Option::None,
        Option::Some(v) => Option::Some(v as int),
    }
}

/// Whether a record passes the listing filters. The special assignee
/// query `unassigned` matches records with no assignee or an empty one.
pub open spec fn matches_filters(
    m: IssueModel,
    status: Option<Seq<char>>,
    assignee: Option<Seq<char>>,
    priority: Option<int>,
    issue_type: Option<Seq<char>>,
) -> bool {
    &&& match status {
        Option::None => true,
        Option::Some(v) => m.status == v,
    }
    &&& match assignee {
        Option::None => true,
        Option::Some(v) => if v == "unassigned"@ {
            m.assignee is None || m.assignee == Option::Some(Seq::<char>::empty())
        } else {
            m.assignee == Option::Some(v)
        },
    }
    &&& match priority {
        Option::None => true,
        Option::Some(p) => m.priority == p,
    }
    &&& match issue_type {
        Option::None => true,
        Option::Some(v) => m.issue_type == v,
    }
}

/// The records that pass the filters, in id order.
pub open spec fn filtered(
    ms: Seq<IssueModel>,
    status: Option<Seq<char>>,
    assignee: Option<Seq<char>>,
    priority: Option<int>,
    issue_type: Option<Seq<char>>,
) -> Seq<IssueModel>
    decreases ms.len(),
{
    if ms.len() == 0 {
        Seq::<IssueModel>::empty()
    } else {
        let rest = filtered(ms.skip(1), status, assignee, priority, issue_type);
        if matches_filters(ms[0], status, assignee, priority, issue_type) {
            seq![ms[0]] + rest
        } else {
            rest
        }
    }
}

fn matches_filters_exec(
    iss: &Issue,
    status: Option<&str>,
    assignee: Option<&str>,
    priority: Option<i32>,
    issue_type: Option<&str>,
) -> (r: bool)
    ensures
        r == matches_filters(
            iss@,
            opt_filter_view(status),
            opt_filter_view(assignee),
            opt_i32_filter_view(priority),
            opt_filter_view(issue_type),
        ),
{
    let ok_status = match status {
        Option::None => true,
        Option::Some(v) => str_eq(iss.status.as_str(), v),
    };
    let ok_assignee = match assignee {
        Option::None => true,
        Option::Some(v) => {
            if str_eq(v, "unassigned") {
                match &iss.assignee {
                    Option::None => true,
                    Option::Some(a) => a.as_str().unicode_len() == 0,
                }
            } else {
                match &iss.assignee {
                    Option::None => false,
                    Option::Some(a) => str_eq(a.as_str(), v),
                }
            }
        },
    };
    let ok_priority = match priority {
        Option::None => true,
        Option::Some(p) => iss.priority == p,
    };
    let ok_type = match issue_type {
        Option::None => true,
        Option::Some(v) => str_eq(iss.issue_type.as_str(), v),
    };
    proof {
        match &iss.assignee {
            Option::Some(a) => {
                if a@.len() == 0 {
                    assert(a@ =~= Seq::<char>::empty());
                }
            },
            Option::None => {},
        }
    }
    ok_status && ok_assignee && ok_priority && ok_type
}

/// The in-memory store.
pub struct Store {
    pub snap: Snapshot,
    pub dirty: Vec<String>,
    pub config: Vec<ConfigEntry>,
    pub fingerprint: Option<String>,
}

impl Store {
    /// The record models, in id order.
    pub open spec fn issues(&self) -> Seq<IssueModel> {
        self.snap.models()
    }

    /// The ids changed since the last export.
    pub open spec fn dirty_set(&self) -> Set<Seq<char>> {
        self.dirty.deep_view().to_set()
    }

    /// The configuration entries.
    pub open spec fn cfg(&self) -> Seq<CfgModel> {
        self.config.deep_view()
    }

    /// The store invariant: a canonical record set and unique
    /// configuration keys.
    pub open spec fn wf(&self) -> bool {
        &&& self.snap.wf()
        &&& cfg_keys_unique(self.cfg())
    }

    /// An empty store.
    pub fn new() -> (r: Store)
        ensures
            r.wf(),
            r.issues() == Seq::<IssueModel>::empty(),
            r.dirty_set() == Set::<Seq<char>>::empty(),
            r.cfg() == Seq::<CfgModel>::empty(),
            r.fingerprint is None,
    {
        let r = Store {
            snap: Snapshot::new(),
            dirty: Vec::new(),
            config: Vec::new(),
            fingerprint: Option::None,
        };
        proof {
            assert(r.dirty.deep_view() =~= Seq::<Seq<char>>::empty());
            assert(r.dirty_set() =~= Set::<Seq<char>>::empty());
            assert(r.cfg() =~= Seq::<CfgModel>::empty());
        }
        r
    }

    /// Records an id as changed since the last export.
    fn mark_dirty(&mut self, id: &str)
        ensures
            final(self).snap == old(self).snap,
            final(self).config == old(self).config,
            final(self).fingerprint == old(self).fingerprint,
            final(self).dirty_set() == old(self).dirty_set().insert(id@),
    {
        let mut i: usize = 0;
        while i < self.dirty.len()
            invariant
                self.dirty == old(self).dirty,
                self.snap == old(self).snap,
                self.config == old(self).config,
                self.fingerprint == old(self).fingerprint,
                i <= self.dirty.len(),
            decreases self.dirty.len() - i,
        {
            if str_eq(self.dirty[i].as_str(), id) {
                proof {
                    let dv = self.dirty.deep_view();
                    assert(dv[i as int] == id@);
                    assert(dv.contains(id@));
                    assert(dv.to_set() =~= dv.to_set().insert(id@));
                }
                return ;
            }
            i = i + 1;
        }
        let ghost pre = self.dirty.deep_view();
        self.dirty.push(id.to_owned());
        proof {
            assert(self.dirty.deep_view() =~= pre.push(id@));
            assert(pre.push(id@).to_set() =~= pre.to_set().insert(id@)) by {
                assert forall|x: Seq<char>| pre.push(id@).to_set().contains(x) implies
                    pre.to_set().insert(id@).contains(x) by {
                    let w = choose|w: int| 0 <= w < pre.push(id@).len() && pre.push(id@)[w] == x;
                    if w < pre.len() {
                        assert(pre[w] == x);
                        assert(pre.contains(x));
                    }
                }
                assert forall|x: Seq<char>| pre.to_set().insert(id@).contains(x) implies
                    pre.push(id@).to_set().contains(x) by {
                    if x == id@ {
                        assert(pre.push(id@)[pre.len() as int] == x);
                        assert(pre.push(id@).contains(x));
                    } else {
                        let w = choose|w: int| 0 <= w < pre.len() && pre[w] == x;
                        assert(pre.push(id@)[w] == x);
                        assert(pre.push(id@).contains(x));
                    }
                }
            }
        }
    }

    /// Creates a record; fails when its id is already present. The new
    /// record is marked dirty.
    pub fn create_issue(&mut self, issue: &Issue) -> (r: Result<(), StoreError>)
        requires
            old(self).wf(),
        ensures
            final(self).wf(),
            r is Ok <==> lookup(old(self).issues(), issue@.id) is None,
            r matches Result::Err(e) ==> e is DuplicateId && *final(self) == *old(self),
            r is Ok ==> final(self).issues() == upsert(old(self).issues(), strip_hash(issue@))
                && final(self).dirty_set() == old(self).dirty_set().insert(issue@.id)
                && final(self).cfg() == old(self).cfg() && final(self).fingerprint == old(
                self,
            ).fingerprint,
    {
        match self.snap.find_index(issue.id.as_str()) {
            Option::Some(_) => Result::Err(StoreError::DuplicateId),
            Option::None => {
                self.snap.upsert_issue(issue.clone());
                self.mark_dirty(issue.id.as_str());
                Result::Ok(())
            },
        }
    }

    /// Fetches a record: by id prefix when the query is shorter than a
    /// full id, exactly otherwise.
    pub fn get_issue(&self, id: &str) -> (r: Option<Issue>)
        ensures
            match r {
                Option::Some(iss) => get_spec(self.issues(), id@) == Option::Some(iss@),
                Option::None => get_spec(self.issues(), id@) is None,
            },
    {
        let ghost ms = self.issues();
        if id.unicode_len() < 36 {
            let mut i: usize = 0;
            while i < self.snap.issues.len()
                invariant
                    ms == self.issues(),
                    id@.len() < 36,
                    i <= self.snap.issues.len(),
                    forall|j: int| 0 <= j < i ==> !is_prefix(id@, (#[trigger] ms[j]).id),
                decreases self.snap.issues.len() - i,
            {
                proof {
                    assert(ms[i as int] == self.snap.issues@[i as int]@);
                }
                if str_starts_with(self.snap.issues[i].id.as_str(), id) {
                    proof {
                        lemma_first_prefix_skip(ms, id@, i as int);
                        assert(ms.skip(i as int)[0] == ms[i as int]);
                        assert(is_prefix(id@, ms.skip(i as int)[0].id));
                        assert(first_prefix_match(ms.skip(i as int), id@) == Option::Some(
                            ms[i as int],
                        ));
                        assert(first_prefix_match(ms, id@) == Option::Some(ms[i as int]));
                        assert(id@.len() < 36);
                        assert(get_spec(ms, id@) == Option::Some(ms[i as int]));
                    }
                    return Option::Some(self.snap.issues[i].clone());
                }
                i = i + 1;
            }
            proof {
                lemma_first_prefix_skip(ms, id@, i as int);
                assert(ms.skip(i as int).len() == 0);
            }
            Option::None
        } else {
            match self.snap.find_index(id) {
                Option::Some(k) => Option::Some(self.snap.issues[k].clone()),
                Option::None => Option::None,
            }
        }
    }

    /// Replaces a record wholesale by id — labels and dependencies
    /// included — while its stored comments are kept; the id is marked
    /// dirty whether or not the record exists.
    pub fn update_issue(&mut self, issue: &Issue)
        requires
            old(self).wf(),
        ensures
            final(self).wf(),
            match lookup(old(self).issues(), issue@.id) {
                Option::Some(o) => final(self).issues() == upsert(
                    old(self).issues(),
                    update_entry(o, issue@),
                ),
                Option::None => final(self).issues() == old(self).issues(),
            },
            final(self).dirty_set() == old(self).dirty_set().insert(issue@.id),
            final(self).cfg() == old(self).cfg(),
            final(self).fingerprint == old(self).fingerprint,
    {
        match self.snap.find_index(issue.id.as_str()) {
            Option::Some(k) => {
                let mut upd = issue.clone();
                upd.comments = clone_comments(&self.snap.issues[k].comments);
                proof {
                    assert(strip_hash(upd@) =~= update_entry(
                        lookup(old(self).issues(), issue@.id)->Some_0,
                        issue@,
                    ));
                }
                self.snap.upsert_issue(upd);
            },
            Option::None => {},
        }
        self.mark_dirty(issue.id.as_str());
    }

    /// Stores a configuration value, replacing any previous value of the
    /// key.
    pub fn set_config(&mut self, key: &str, value: &str)
        requires
            old(self).wf(),
        ensures
            final(self).wf(),
            cfg_lookup(final(self).cfg(), key@) == Option::Some(value@),
            forall|k2: Seq<char>|
                k2 != key@ ==> cfg_lookup(final(self).cfg(), k2) == cfg_lookup(
                    old(self).cfg(),
                    k2,
                ),
            final(self).snap == old(self).snap,
            final(self).dirty == old(self).dirty,
            final(self).fingerprint == old(self).fingerprint,
    {
        let ghost cs = self.cfg();
        let entry = ConfigEntry { key: key.to_owned(), value: value.to_owned() };
        let mut i: usize = 0;
        while i < self.config.len()
            invariant
                old(self).wf(),
                cs == self.cfg(),
                cfg_keys_unique(cs),
                self.config == old(self).config,
                self.snap == old(self).snap,
                self.dirty == old(self).dirty,
                self.fingerprint == old(self).fingerprint,
                entry@.key == key@,
                entry@.value == value@,
                i <= self.config.len(),
                forall|j: int| 0 <= j < i ==> (#[trigger] cs[j]).key != key@,
            decreases self.config.len() - i,
        {
            proof {
                assert(cs[i as int] == self.config@[i as int]@);
            }
            if str_eq(self.config[i].key.as_str(), key) {
                proof {
                    assert(cfg_keys_unique(cs));
                    assert forall|j: int|
                        0 <= j < cs.len() && j != i implies cs[j].key != cs[i as int].key by {
                        if j < i {
                            assert(cs[j].key != key@);
                        }
                    }
                }
                self.config.remove(i);
                self.config.insert(i, entry);
                proof {
                    assert(self.cfg() =~= cs.update(i as int, CfgModel { key: key@, value: value@ }));
                    lemma_cfg_update(cs, i as int, CfgModel { key: key@, value: value@ }, key@);
                    assert forall|k2: Seq<char>| k2 != key@ implies cfg_lookup(
                        self.cfg(),
                        k2,
                    ) == cfg_lookup(cs, k2) by {
                        lemma_cfg_update(
                            cs,
                            i as int,
                            CfgModel { key: key@, value: value@ },
                            k2,
                        );
                    }
                    assert(cfg_keys_unique(self.cfg()));
                }
                return ;
            }
            i = i + 1;
        }
        let ghost e = CfgModel { key: key@, value: value@ };
        self.config.push(entry);
        proof {
            assert(self.cfg() =~= cs.push(e));
            lemma_cfg_push(cs, e, key@);
            assert forall|k2: Seq<char>| k2 != key@ implies cfg_lookup(self.cfg(), k2)
                == cfg_lookup(cs, k2) by {
                lemma_cfg_push(cs, e, k2);
            }
            assert forall|a: int, b: int|
                0 <= a < b < self.cfg().len() implies self.cfg()[a].key != self.cfg()[b].key by {
                if b < cs.len() {
                } else {
                    assert(self.cfg()[b] == e);
                    assert(self.cfg()[a] == cs[a]);
                }
            }
        }
    }

    /// Reads a configuration value; absence is no failure.
    pub fn get_config(&self, key: &str) -> (r: Option<String>)
        ensures
            opt_str_view(r) == cfg_lookup(self.cfg(), key@),
    {
        let ghost cs = self.cfg();
        let mut i: usize = 0;
        while i < self.config.len()
            invariant
                cs == self.cfg(),
                i <= self.config.len(),
                forall|j: int| 0 <= j < i ==> (#[trigger] cs[j]).key != key@,
            decreases self.config.len() - i,
        {
            proof {
                assert(cs[i as int] == self.config@[i as int]@);
            }
            if str_eq(self.config[i].key.as_str(), key) {
                proof {
                    lemma_cfg_lookup_skip(cs, key@, i as int);
                    assert(cs.skip(i as int)[0] == cs[i as int]);
                }
                return Option::Some(self.config[i].value.clone());
            }
            i = i + 1;
        }
        proof {
            lemma_cfg_lookup_skip(cs, key@, i as int);
            assert(cs.skip(i as int).len() == 0);
        }
        Option::None
    }

    /// Lists every configuration entry.
    pub fn list_config(&self) -> (r: Vec<ConfigEntry>)
        ensures
            r.deep_view() == self.cfg(),
    {
        let mut r: Vec<ConfigEntry> = Vec::new();
        let mut i: usize = 0;
        while i < self.config.len()
            invariant
                i <= self.config.len(),
                r.deep_view() =~= self.cfg().take(i as int),
            decreases self.config.len() - i,
        {
            let ghost pre = r.deep_view();
            r.push(self.config[i].clone());
            i = i + 1;
            proof {
                assert(r.deep_view() =~= pre.push(self.config@[i - 1]@));
                assert(self.cfg().take(i as int) =~= self.cfg().take(i - 1).push(
                    self.cfg()[i - 1],
                ));
            }
        }
        proof {
            assert(r.deep_view() =~= self.cfg());
        }
        r
    }

    /// The ids changed since the last export.
    pub fn dirty_ids(&self) -> (r: Vec<String>)
        ensures
            r.deep_view() == self.dirty.deep_view(),
    {
        crate::model::clone_strings(&self.dirty)
    }


    /// Lists the records that pass the given filters, in id order.
    pub fn list_issues(
        &self,
        status: Option<&str>,
        assignee: Option<&str>,
        priority: Option<i32>,
        issue_type: Option<&str>,
    ) -> (r: Vec<Issue>)
        ensures
            r.deep_view() == filtered(
                self.issues(),
                opt_filter_view(status),
                opt_filter_view(assignee),
                opt_i32_filter_view(priority),
                opt_filter_view(issue_type),
            ),
    {
        let ghost ms = self.issues();
        let ghost fs = opt_filter_view(status);
        let ghost fa = opt_filter_view(assignee);
        let ghost fp = opt_i32_filter_view(priority);
        let ghost ft = opt_filter_view(issue_type);
        let mut out: Vec<Issue> = Vec::new();
        let mut i: usize = 0;
        proof {
            assert(ms.skip(0) =~= ms);
            assert(out.deep_view() =~= Seq::<IssueModel>::empty());
            assert(out.deep_view() + filtered(ms, fs, fa, fp, ft) =~= filtered(
                ms,
                fs,
                fa,
                fp,
                ft,
            ));
        }
        while i < self.snap.issues.len()
            invariant
                ms == self.issues(),
                fs == opt_filter_view(status),
                fa == opt_filter_view(assignee),
                fp == opt_i32_filter_view(priority),
                ft == opt_filter_view(issue_type),
                i <= self.snap.issues.len(),
                filtered(ms, fs, fa, fp, ft) == out.deep_view() + filtered(
                    ms.skip(i as int),
                    fs,
                    fa,
                    fp,
                    ft,
                ),
            decreases self.snap.issues.len() - i,
        {
            let ghost rest = ms.skip(i as int);
            proof {
                assert(rest[0] == ms[i as int]);
                assert(ms[i as int] == self.snap.issues@[i as int]@);
                assert(rest.skip(1) =~= ms.skip(i as int + 1));
            }
            let ghost pre = out.deep_view();
            if matches_filters_exec(&self.snap.issues[i], status, assignee, priority, issue_type) {
                out.push(self.snap.issues[i].clone());
                proof {
                    assert(out.deep_view() =~= pre.push(ms[i as int]));
                    assert(pre + (seq![ms[i as int]] + filtered(
                        ms.skip(i as int + 1),
                        fs,
                        fa,
                        fp,
                        ft,
                    )) =~= out.deep_view() + filtered(ms.skip(i as int + 1), fs, fa, fp, ft));
                }
            }
            i = i + 1;
        }
        proof {
            assert(ms.skip(i as int).len() == 0);
            assert(out.deep_view() + Seq::<IssueModel>::empty() =~= out.deep_view());
        }
        out
    }

    /// Renders every record as the canonical log, remembers the digest of
    /// the rendered text as the fingerprint, and clears the dirty set: the
    /// visible sign that current state has been externalized.
    pub fn export_to_jsonl(&mut self) -> (r: String)
        requires
            old(self).wf(),
        ensures
            final(self).wf(),
            r@ == render_log(old(self).issues()),
            final(self).issues() == old(self).issues(),
            final(self).dirty_set() == Set::<Seq<char>>::empty(),
            opt_str_view(final(self).fingerprint) == Option::Some(hex_of(sha256_of(r@))),
            final(self).cfg() == old(self).cfg(),
    {
        let content = self.snap.to_log();
        let digest = sha256_str(content.as_str());
        let fp = hex_encode(&digest);
        self.fingerprint = Option::Some(fp);
        self.dirty = Vec::new();
        proof {
            assert(self.dirty.deep_view() =~= Seq::<Seq<char>>::empty());
            assert(self.dirty_set() =~= Set::<Seq<char>>::empty());
        }
        content
    }

    /// Applies a canonical log to the store: upsert by id in reading
    /// order, comments unioned by (author, text). A log with any
    /// unparseable record fails whole, with no visible change.
    pub fn import_from_jsonl(&mut self, content: &str) -> (r: Result<(), StoreError>)
        requires
            old(self).wf(),
        ensures
            final(self).wf(),
            r is Ok <==> sp_log(content@) is Some,
            r matches Result::Err(e) ==> e is BadRecord && *final(self) == *old(self),
            r is Ok ==> (sp_log(content@) matches Option::Some(recs) && final(self).issues()
                == apply_import(old(self).issues(), recs)) && final(self).dirty == old(self).dirty
                && final(self).cfg() == old(self).cfg() && final(self).fingerprint == old(
                self,
            ).fingerprint,
    {
        let list = match crate::codec::p_log(content) {
            Option::None => {
                return Result::Err(StoreError::BadRecord);
            },
            Option::Some(list) => list,
        };
        let ghost recs = sp_log(content@)->Some_0;
        let ghost ms0 = self.issues();
        let mut i: usize = 0;
        proof {
            assert(recs.skip(0) =~= recs);
        }
        while i < list.len()
            invariant
                old(self).wf(),
                self.snap.wf(),
                list.deep_view() == recs,
                i <= list.len(),
                apply_import(ms0, recs) == apply_import(self.issues(), recs.skip(i as int)),
                self.dirty == old(self).dirty,
                self.config == old(self).config,
                self.fingerprint == old(self).fingerprint,
            decreases list.len() - i,
        {
            let ghost cur = self.issues();
            let ghost rec = recs[i as int];
            proof {
                assert(recs.skip(i as int)[0] == rec);
                assert(recs.skip(i as int).skip(1) =~= recs.skip(i as int + 1));
                assert(rec == list@[i as int]@);
            }
            let entry: Issue;
            match self.snap.find_index(list[i].id.as_str()) {
                Option::None => {
                    entry = list[i].clone();
                    proof {
                        assert(strip_hash(entry@) =~= import_entry(lookup(cur, rec.id), rec));
                    }
                },
                Option::Some(k) => {
                    let mut e = list[i].clone();
                    e.comments = union_comments_at_exec(&self.snap.issues[k].comments, &list[i].comments);
                    entry = e;
                    proof {
                        assert(cur[k as int] == self.snap.issues@[k as int]@);
                        assert(strip_hash(entry@) =~= import_entry(lookup(cur, rec.id), rec));
                    }
                },
            }
            self.snap.upsert_issue(entry);
            proof {
                assert(self.issues() == upsert(cur, import_entry(lookup(cur, rec.id), rec)));
            }
            i = i + 1;
        }
        proof {
            assert(recs.skip(list.len() as int).len() == 0);
        }
        Result::Ok(())
    }
}

proof fn lemma_first_prefix_skip(ms: Seq<IssueModel>, q: Seq<char>, i: int)
    requires
        0 <= i <= ms.len(),
        forall|j: int| 0 <= j < i ==> !is_prefix(q, (#[trigger] ms[j]).id),
    ensures
        first_prefix_match(ms, q) == first_prefix_match(ms.skip(i), q),
    decreases i,
{
    if i > 0 {
        assert(!is_prefix(q, ms[0].id));
        assert forall|j: int| 0 <= j < i - 1 implies !is_prefix(
            q,
            (#[trigger] ms.skip(1)[j]).id,
        ) by {
            assert(ms.skip(1)[j] == ms[j + 1]);
        }
        lemma_first_prefix_skip(ms.skip(1), q, i - 1);
        assert(ms.skip(1).skip(i - 1) =~= ms.skip(i));
    } else {
        assert(ms.skip(0) =~= ms);
    }
}

/// What an update leaves in the store: the new record with the stored
/// comments kept and no content hash.
pub open spec fn update_entry(old_entry: IssueModel, new: IssueModel) -> IssueModel {
    IssueModel { comments: old_entry.comments, content_hash: Seq::<char>::empty(), ..new }
}

fn com_at_key_eq(a: &Comment, b: &Comment) -> (r: bool)
    ensures
        r == com_at_key(a@, b@),
{
    a.author == b.author && a.text == b.text
}

fn has_com_at_key_exec(v: &Vec<Comment>, c: &Comment) -> (r: bool)
    ensures
        r == has_com_at_key(v.deep_view(), c@),
{
    let mut i: usize = 0;
    while i < v.len()
        invariant
            i <= v.len(),
            forall|k: int| 0 <= k < i ==> !com_at_key(#[trigger] v.deep_view()[k], c@),
        decreases v.len() - i,
    {
        if com_at_key_eq(&v[i], c) {
            proof {
                assert(com_at_key(v.deep_view()[i as int], c@));
            }
            return true;
        }
        proof {
            assert(v.deep_view()[i as int] == v@[i as int]@);
        }
        i = i + 1;
    }
    false
}

/// Unions comment lists by (author, text): what is present stays, new
/// pairs are appended.
pub fn union_comments_at_exec(a: &Vec<Comment>, b: &Vec<Comment>) -> (res: Vec<Comment>)
    ensures
        res.deep_view() == union_comments_at(a.deep_view(), b.deep_view()),
{
    let mut acc = clone_comments(a);
    let mut k: usize = 0;
    proof {
        assert(b.deep_view().skip(0) =~= b.deep_view());
    }
    while k < b.len()
        invariant
            k <= b.len(),
            union_comments_at(a.deep_view(), b.deep_view()) == union_comments_at(
                acc.deep_view(),
                b.deep_view().skip(k as int),
            ),
        decreases b.len() - k,
    {
        let ghost pre = acc.deep_view();
        let ghost rest = b.deep_view().skip(k as int);
        proof {
            assert(rest[0] == b.deep_view()[k as int]);
            assert(b.deep_view()[k as int] == b@[k as int]@);
            assert(rest.skip(1) =~= b.deep_view().skip(k as int + 1));
        }
        if !has_com_at_key_exec(&acc, &b[k]) {
            acc.push(b[k].clone());
            proof {
                assert(acc.deep_view() =~= pre.push(b@[k as int]@));
            }
        }
        k = k + 1;
    }
    proof {
        assert(b.deep_view().skip(b.len() as int).len() == 0);
    }
    acc
}


proof fn lemma_union_at_absorb(acc: Seq<CommentModel>, b: Seq<CommentModel>)
    requires
        forall|i: int| 0 <= i < b.len() ==> has_com_at_key(acc, #[trigger] b[i]),
    ensures
        union_comments_at(acc, b) == acc,
    decreases b.len(),
{
    if b.len() > 0 {
        assert(has_com_at_key(acc, b[0]));
        assert forall|i: int| 0 <= i < b.skip(1).len() implies has_com_at_key(
            acc,
            #[trigger] b.skip(1)[i],
        ) by {
            assert(b.skip(1)[i] == b[i + 1]);
        }
        lemma_union_at_absorb(acc, b.skip(1));
    }
}

proof fn lemma_import_self(ms: Seq<IssueModel>, i: int)
    requires
        snap_wf(ms),
        0 <= i <= ms.len(),
    ensures
        apply_import(ms, ms.skip(i)) == ms,
    decreases ms.len() - i,
{
    if i < ms.len() {
        let recs = ms.skip(i);
        assert(recs[0] == ms[i]);
        crate::snapshot::lemma_lookup_at(ms, i);
        let c = ms[i].comments;
        assert forall|j: int| 0 <= j < c.len() implies has_com_at_key(c, #[trigger] c[j]) by {
            assert(com_at_key(c[j], c[j]));
        }
        lemma_union_at_absorb(c, c);
        assert(import_entry(Option::Some(ms[i]), ms[i]) =~= ms[i]);
        assert forall|j: int| 0 <= j < i implies crate::text::lex_lt(
            (#[trigger] ms[j]).id,
            ms[i].id,
        ) by {}
        crate::text::lemma_lex_asym(ms[i].id, ms[i].id);
        crate::snapshot::lemma_upsert_split(ms, ms[i], i);
        assert(ms.update(i, ms[i]) =~= ms);
        assert(upsert(ms, ms[i]) == ms);
        assert(recs.skip(1) =~= ms.skip(i + 1));
        lemma_import_self(ms, i + 1);
    } else {
        assert(ms.skip(i).len() == 0);
    }
}

/// Importing a store's own export reproduces every record exactly: ids,
/// titles, descriptions, statuses, priorities, types, label sets,
/// dependency lists and comment lists all come back unchanged.
pub proof fn lemma_import_export_identity(ms: Seq<IssueModel>)
    requires
        snap_wf(ms),
    ensures
        sp_log(render_log(ms)) == Option::Some(ms),
        apply_import(ms, ms) == ms,
{
    crate::snapshot::lemma_snapshot_roundtrip(ms);
    assert(ms.skip(0) =~= ms);
    lemma_import_self(ms, 0);
}

/// Exporting equal record sets yields byte-identical logs and identical
/// fingerprints; since export leaves the record set unchanged, two
/// exports of the same unmutated store agree byte for byte.
pub proof fn lemma_export_deterministic(a: Seq<IssueModel>, b: Seq<IssueModel>)
    requires
        a == b,
    ensures
        render_log(a) == render_log(b),
        hex_of(sha256_of(render_log(a))) == hex_of(sha256_of(render_log(b))),
{
}

} // verus!
