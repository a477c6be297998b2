//! The record types of the store: issues, their dependencies and comments,
//! together with their mathematical models.
//!
//! Every record type has a ghost model in which text is a `Seq<char>` and
//! every timestamp is an integer count of nanoseconds since the Unix epoch.
//! All contracts of the crate speak about these models.

use vstd::prelude::*;

verus! {

/// Model of a dependency edge: the owning issue, the target issue, the
/// relationship kind, and who created it when.
#[verifier::ext_equal]
pub struct DepModel {
    pub issue_id: Seq<char>,
    pub depends_on_id: Seq<char>,
    pub type_: Seq<char>,
    pub created_at: int,
    pub created_by: Seq<char>,
}

/// Model of a comment: an append-only note on an issue.
#[verifier::ext_equal]
pub struct CommentModel {
    pub id: int,
    pub issue_id: Seq<char>,
    pub author: Seq<char>,
    pub text: Seq<char>,
    pub created_at: int,
}

/// Model of an issue record with all its scalar fields, its label set and
/// its dependency and comment lists.
#[verifier::ext_equal]
pub struct IssueModel {
    pub id: Seq<char>,
    pub content_hash: Seq<char>,
    pub title: Seq<char>,
    pub description: Seq<char>,
    pub design: Seq<char>,
    pub acceptance_criteria: Seq<char>,
    pub notes: Seq<char>,
    pub status: Seq<char>,
    pub priority: int,
    pub issue_type: Seq<char>,
    pub assignee: Option<Seq<char>>,
    pub estimated_minutes: Option<int>,
    pub created_at: int,
    pub updated_at: int,
    pub closed_at: Option<int>,
    pub external_ref: Option<Seq<char>>,
    pub sender: Seq<char>,
    pub ephemeral: bool,
    pub replies_to: Seq<char>,
    pub relates_to: Seq<Seq<char>>,
    pub duplicate_of: Seq<char>,
    pub superseded_by: Seq<char>,
    pub deleted_at: Option<int>,
    pub deleted_by: Seq<char>,
    pub delete_reason: Seq<char>,
    pub original_type: Seq<char>,
    pub labels: Seq<Seq<char>>,
    pub dependencies: Seq<DepModel>,
    pub comments: Seq<CommentModel>,
}

/// A dependency edge between two issues, unique per
/// (owning id, target id, relationship type).
pub struct Dependency {
    pub issue_id: String,
    pub depends_on_id: String,
    pub type_: String,
    pub created_at: i64,
    pub created_by: String,
}

/// A comment on an issue; comments are only ever appended, never edited.
pub struct Comment {
    pub id: i64,
    pub issue_id: String,
    pub author: String,
    pub text: String,
    pub created_at: i64,
}

/// One issue record. Timestamps are nanoseconds since the Unix epoch;
/// `deleted_at` and its companions form a soft-delete tombstone.
pub struct Issue {
    pub id: String,
    pub content_hash: String,
    pub title: String,
    pub description: String,
    pub design: String,
    pub acceptance_criteria: String,
    pub notes: String,
    pub status: String,
    pub priority: i32,
    pub issue_type: String,
    pub assignee: Option<String>,
    pub estimated_minutes: Option<i32>,
    pub created_at: i64,
    pub updated_at: i64,
    pub closed_at: Option<i64>,
    pub external_ref: Option<String>,
    pub sender: String,
    pub ephemeral: bool,
    pub replies_to: String,
    pub relates_to: Vec<String>,
    pub duplicate_of: String,
    pub superseded_by: String,
    pub deleted_at: Option<i64>,
    pub deleted_by: String,
    pub delete_reason: String,
    pub original_type: String,
    pub labels: Vec<String>,
    pub dependencies: Vec<Dependency>,
    pub comments: Vec<Comment>,
}

pub open spec fn opt_str_view(o: Option<String>) -> Option<Seq<char>> {
    match o {
        Option::None => Option::None,
        Option::Some(s) => Option::Some(s@),
    }
}

pub open spec fn opt_i32_view(o: Option<i32>) -> Option<int> {
    match o {
        Option::None => Option::None,
        Option::Some(n) => Option::Some(n as int),
    }
}

pub open spec fn opt_i64_view(o: Option<i64>) -> Option<int> {
    match o {
        Option::None => Option::None,
        Option::Some(n) => Option::Some(n as int),
    }
}

impl DeepView for Dependency {
    type V = DepModel;

    open spec fn deep_view(&self) -> DepModel {
        DepModel {
            issue_id: self.issue_id@,
            depends_on_id: self.depends_on_id@,
            type_: self.type_@,
            created_at: self.created_at as int,
            created_by: self.created_by@,
        }
    }
}

impl View for Dependency {
    type V = DepModel;

    open spec fn view(&self) -> DepModel {
        self.deep_view()
    }
}

impl DeepView for Comment {
    type V = CommentModel;

    open spec fn deep_view(&self) -> CommentModel {
        CommentModel {
            id: self.id as int,
            issue_id: self.issue_id@,
            author: self.author@,
            text: self.text@,
            created_at: self.created_at as int,
        }
    }
}

impl View for Comment {
    type V = CommentModel;

    open spec fn view(&self) -> CommentModel {
        self.deep_view()
    }
}

impl DeepView for Issue {
    type V = IssueModel;

    open spec fn deep_view(&self) -> IssueModel {
        IssueModel {
            id: self.id@,
            content_hash: self.content_hash@,
            title: self.title@,
            description: self.description@,
            design: self.design@,
            acceptance_criteria: self.acceptance_criteria@,
            notes: self.notes@,
            status: self.status@,
            priority: self.priority as int,
            issue_type: self.issue_type@,
            assignee: opt_str_view(self.assignee),
            estimated_minutes: opt_i32_view(self.estimated_minutes),
            created_at: self.created_at as int,
            updated_at: self.updated_at as int,
            closed_at: opt_i64_view(self.closed_at),
            external_ref: opt_str_view(self.external_ref),
            sender: self.sender@,
            ephemeral: self.ephemeral,
            replies_to: self.replies_to@,
            relates_to: self.relates_to.deep_view(),
            duplicate_of: self.duplicate_of@,
            superseded_by: self.superseded_by@,
            deleted_at: opt_i64_view(self.deleted_at),
            deleted_by: self.deleted_by@,
            delete_reason: self.delete_reason@,
            original_type: self.original_type@,
            labels: self.labels.deep_view(),
            dependencies: self.dependencies.deep_view(),
            comments: self.comments.deep_view(),
        }
    }
}

impl View for Issue {
    type V = IssueModel;

    open spec fn view(&self) -> IssueModel {
        self.deep_view()
    }
}

/// A dependency model is well formed when its timestamp fits a machine word.
pub open spec fn wf_dep(d: DepModel) -> bool {
    i64::MIN <= d.created_at <= i64::MAX
}

/// A comment model is well formed when its numbers fit machine words.
pub open spec fn wf_comment(c: CommentModel) -> bool {
    &&& i64::MIN <= c.id <= i64::MAX
    &&& i64::MIN <= c.created_at <= i64::MAX
}

/// An issue model is well formed when every number fits the machine word it
/// is stored in. Every model obtained from an `Issue` value is well formed.
pub open spec fn wf_issue(m: IssueModel) -> bool {
    &&& i32::MIN <= m.priority <= i32::MAX
    &&& (m.estimated_minutes matches Option::Some(e) ==> i32::MIN <= e <= i32::MAX)
    &&& i64::MIN <= m.created_at <= i64::MAX
    &&& i64::MIN <= m.updated_at <= i64::MAX
    &&& (m.closed_at matches Option::Some(t) ==> i64::MIN <= t <= i64::MAX)
    &&& (m.deleted_at matches Option::Some(t) ==> i64::MIN <= t <= i64::MAX)
    &&& forall|i: int| 0 <= i < m.dependencies.len() ==> wf_dep(#[trigger] m.dependencies[i])
    &&& forall|i: int| 0 <= i < m.comments.len() ==> wf_comment(#[trigger] m.comments[i])
}

pub proof fn lemma_issue_view_wf(i: &Issue)
    ensures
        wf_issue(i@),
{
    assert forall|k: int| 0 <= k < i@.dependencies.len() implies wf_dep(
        #[trigger] i@.dependencies[k],
    ) by {
        assert(i@.dependencies[k] == i.dependencies@[k].deep_view());
    }
    assert forall|k: int| 0 <= k < i@.comments.len() implies wf_comment(
        #[trigger] i@.comments[k],
    ) by {
        assert(i@.comments[k] == i.comments@[k].deep_view());
    }
}

/// The model of a freshly constructed issue: every text field empty, every
/// number zero, every optional field absent.
pub open spec fn default_issue_model() -> IssueModel {
    IssueModel {
        id: Seq::<char>::empty(),
        content_hash: Seq::<char>::empty(),
        title: Seq::<char>::empty(),
        description: Seq::<char>::empty(),
        design: Seq::<char>::empty(),
        acceptance_criteria: Seq::<char>::empty(),
        notes: Seq::<char>::empty(),
        status: Seq::<char>::empty(),
        priority: 0,
        issue_type: Seq::<char>::empty(),
        assignee: Option::None,
        estimated_minutes: Option::None,
        created_at: 0,
        updated_at: 0,
        closed_at: Option::None,
        external_ref: Option::None,
        sender: Seq::<char>::empty(),
        ephemeral: false,
        replies_to: Seq::<char>::empty(),
        relates_to: Seq::<Seq<char>>::empty(),
        duplicate_of: Seq::<char>::empty(),
        superseded_by: Seq::<char>::empty(),
        deleted_at: Option::None,
        deleted_by: Seq::<char>::empty(),
        delete_reason: Seq::<char>::empty(),
        original_type: Seq::<char>::empty(),
        labels: Seq::<Seq<char>>::empty(),
        dependencies: Seq::<DepModel>::empty(),
        comments: Seq::<CommentModel>::empty(),
    }
}

impl Default for Issue {
    /// A blank issue record.
    fn default() -> (r: Issue)
        ensures
            r@ == default_issue_model(),
    {
        let r = Issue {
            id: String::new(),
            content_hash: String::new(),
            title: String::new(),
            description: String::new(),
            design: String::new(),
            acceptance_criteria: String::new(),
            notes: String::new(),
            status: String::new(),
            priority: 0,
            issue_type: String::new(),
            assignee: Option::None,
            estimated_minutes: Option::None,
            created_at: 0,
            updated_at: 0,
            closed_at: Option::None,
            external_ref: Option::None,
            sender: String::new(),
            ephemeral: false,
            replies_to: String::new(),
            relates_to: Vec::new(),
            duplicate_of: String::new(),
            superseded_by: String::new(),
            deleted_at: Option::None,
            deleted_by: String::new(),
            delete_reason: String::new(),
            original_type: String::new(),
            labels: Vec::new(),
            dependencies: Vec::new(),
            comments: Vec::new(),
        };
        proof {
            assert(r.relates_to.deep_view() =~= Seq::<Seq<char>>::empty());
            assert(r.labels.deep_view() =~= Seq::<Seq<char>>::empty());
            assert(r.dependencies.deep_view() =~= Seq::<DepModel>::empty());
            assert(r.comments.deep_view() =~= Seq::<CommentModel>::empty());
        }
        r
    }
}

fn clone_opt_string(o: &Option<String>) -> (r: Option<String>)
    ensures
        opt_str_view(r) == opt_str_view(*o),
{
    match o {
        Option::None => Option::None,
        Option::Some(s) => Option::Some(s.clone()),
    }
}

/// Clones a vector of strings, preserving its model.
pub fn clone_strings(v: &Vec<String>) -> (r: Vec<String>)
    ensures
        r.deep_view() == v.deep_view(),
{
    let mut r: Vec<String> = Vec::new();
    let mut i: usize = 0;
    while i < v.len()
        invariant
            i <= v.len(),
            r.deep_view() =~= v.deep_view().take(i as int),
        decreases v.len() - i,
    {
        let ghost pre = r.deep_view();
        r.push(v[i].clone());
        i = i + 1;
        proof {
            assert(r.deep_view() =~= pre.push(v@[i - 1].deep_view()));
            assert(v.deep_view().take(i as int) =~= v.deep_view().take(i - 1).push(
                v@[i - 1].deep_view(),
            ));
        }
    }
    proof {
        assert(r.deep_view() =~= v.deep_view());
    }
    r
}

impl Clone for Dependency {
    /// Clones the edge, preserving its model.
    fn clone(&self) -> (r: Dependency)
        ensures
            r@ == self@,
    {
        Dependency {
            issue_id: self.issue_id.clone(),
            depends_on_id: self.depends_on_id.clone(),
            type_: self.type_.clone(),
            created_at: self.created_at,
            created_by: self.created_by.clone(),
        }
    }
}

impl Clone for Comment {
    /// Clones the comment, preserving its model.
    fn clone(&self) -> (r: Comment)
        ensures
            r@ == self@,
    {
        Comment {
            id: self.id,
            issue_id: self.issue_id.clone(),
            author: self.author.clone(),
            text: self.text.clone(),
            created_at: self.created_at,
        }
    }
}

/// Clones a dependency list, preserving its model.
pub fn clone_deps(v: &Vec<Dependency>) -> (r: Vec<Dependency>)
    ensures
        r.deep_view() == v.deep_view(),
{
    let mut r: Vec<Dependency> = Vec::new();
    let mut i: usize = 0;
    while i < v.len()
        invariant
            i <= v.len(),
            r.deep_view() =~= v.deep_view().take(i as int),
        decreases v.len() - i,
    {
        let ghost pre = r.deep_view();
        r.push(v[i].clone());
        i = i + 1;
        proof {
            assert(r.deep_view() =~= pre.push(v@[i - 1].deep_view()));
            assert(v.deep_view().take(i as int) =~= v.deep_view().take(i - 1).push(
                v@[i - 1].deep_view(),
            ));
        }
    }
    proof {
        assert(r.deep_view() =~= v.deep_view());
    }
    r
}

/// Clones a comment list, preserving its model.
pub fn clone_comments(v: &Vec<Comment>) -> (r: Vec<Comment>)
    ensures
        r.deep_view() == v.deep_view(),
{
    let mut r: Vec<Comment> = Vec::new();
    let mut i: usize = 0;
    while i < v.len()
        invariant
            i <= v.len(),
            r.deep_view() =~= v.deep_view().take(i as int),
        decreases v.len() - i,
    {
        let ghost pre = r.deep_view();
        r.push(v[i].clone());
        i = i + 1;
        proof {
            assert(r.deep_view() =~= pre.push(v@[i - 1].deep_view()));
            assert(v.deep_view().take(i as int) =~= v.deep_view().take(i - 1).push(
                v@[i - 1].deep_view(),
            ));
        }
    }
    proof {
        assert(r.deep_view() =~= v.deep_view());
    }
    r
}

/// Compares two optional strings by their models.
pub fn eq_opt_string(a: &Option<String>, b: &Option<String>) -> (r: bool)
    ensures
        r == (opt_str_view(*a) == opt_str_view(*b)),
{
    match (a, b) {
        (Option::None, Option::None) => true,
        (Option::Some(x), Option::Some(y)) => *x == *y,
        _ => false,
    }
}

/// Compares two optional 32-bit integers by their models.
pub fn eq_opt_i32(a: &Option<i32>, b: &Option<i32>) -> (r: bool)
    ensures
        r == (opt_i32_view(*a) == opt_i32_view(*b)),
{
    match (a, b) {
        (Option::None, Option::None) => true,
        (Option::Some(x), Option::Some(y)) => *x == *y,
        _ => false,
    }
}

/// Compares two optional 64-bit integers by their models.
pub fn eq_opt_i64(a: &Option<i64>, b: &Option<i64>) -> (r: bool)
    ensures
        r == (opt_i64_view(*a) == opt_i64_view(*b)),
{
    match (a, b) {
        (Option::None, Option::None) => true,
        (Option::Some(x), Option::Some(y)) => *x == *y,
        _ => false,
    }
}

/// Compares two string lists by their models.
pub fn eq_string_vec(a: &Vec<String>, b: &Vec<String>) -> (r: bool)
    ensures
        r == (a.deep_view() == b.deep_view()),
{
    if a.len() != b.len() {
        proof {
            assert(a.deep_view().len() != b.deep_view().len());
        }
        return false;
    }
    let mut i: usize = 0;
    while i < a.len()
        invariant
            a.len() == b.len(),
            i <= a.len(),
            forall|k: int| 0 <= k < i ==> a.deep_view()[k] == b.deep_view()[k],
        decreases a.len() - i,
    {
        if !(*vstd::std_specs::vec::vec_index(a, i) == *vstd::std_specs::vec::vec_index(b, i)) {
            proof {
                assert(a.deep_view()[i as int] != b.deep_view()[i as int]);
            }
            return false;
        }
        i = i + 1;
    }
    proof {
        assert(a.deep_view() =~= b.deep_view());
    }
    true
}

/// Compares two dependency edges by their models.
pub fn eq_dep(a: &Dependency, b: &Dependency) -> (r: bool)
    ensures
        r == (a@ == b@),
{
    a.issue_id == b.issue_id && a.depends_on_id == b.depends_on_id && a.type_ == b.type_
        && a.created_at == b.created_at && a.created_by == b.created_by
}

/// Compares two dependency lists by their models.
pub fn eq_dep_vec(a: &Vec<Dependency>, b: &Vec<Dependency>) -> (r: bool)
    ensures
        r == (a.deep_view() == b.deep_view()),
{
    if a.len() != b.len() {
        proof {
            assert(a.deep_view().len() != b.deep_view().len());
        }
        return false;
    }
    let mut i: usize = 0;
    while i < a.len()
        invariant
            a.len() == b.len(),
            i <= a.len(),
            forall|k: int| 0 <= k < i ==> a.deep_view()[k] == b.deep_view()[k],
        decreases a.len() - i,
    {
        if !eq_dep(&a[i], &b[i]) {
            proof {
                assert(a.deep_view()[i as int] != b.deep_view()[i as int]);
            }
            return false;
        }
        i = i + 1;
    }
    proof {
        assert(a.deep_view() =~= b.deep_view());
    }
    true
}

/// Compares two comments by their models.
pub fn eq_comment(a: &Comment, b: &Comment) -> (r: bool)
    ensures
        r == (a@ == b@),
{
    a.id == b.id && a.issue_id == b.issue_id && a.author == b.author && a.text == b.text
        && a.created_at == b.created_at
}

/// Compares two comment lists by their models.
pub fn eq_comment_vec(a: &Vec<Comment>, b: &Vec<Comment>) -> (r: bool)
    ensures
        r == (a.deep_view() == b.deep_view()),
{
    if a.len() != b.len() {
        proof {
            assert(a.deep_view().len() != b.deep_view().len());
        }
        return false;
    }
    let mut i: usize = 0;
    while i < a.len()
        invariant
            a.len() == b.len(),
            i <= a.len(),
            forall|k: int| 0 <= k < i ==> a.deep_view()[k] == b.deep_view()[k],
        decreases a.len() - i,
    {
        if !eq_comment(&a[i], &b[i]) {
            proof {
                assert(a.deep_view()[i as int] != b.deep_view()[i as int]);
            }
            return false;
        }
        i = i + 1;
    }
    proof {
        assert(a.deep_view() =~= b.deep_view());
    }
    true
}

/// Compares two issue records by their models, field for field.
pub fn eq_issue(a: &Issue, b: &Issue) -> (r: bool)
    ensures
        r == (a@ == b@),
{
    let r = a.id == b.id && a.content_hash == b.content_hash && a.title == b.title
        && a.description == b.description && a.design == b.design
        && a.acceptance_criteria == b.acceptance_criteria && a.notes == b.notes
        && a.status == b.status && a.priority == b.priority && a.issue_type == b.issue_type
        && eq_opt_string(&a.assignee, &b.assignee)
        && eq_opt_i32(&a.estimated_minutes, &b.estimated_minutes)
        && a.created_at == b.created_at && a.updated_at == b.updated_at
        && eq_opt_i64(&a.closed_at, &b.closed_at)
        && eq_opt_string(&a.external_ref, &b.external_ref) && a.sender == b.sender
        && a.ephemeral == b.ephemeral && a.replies_to == b.replies_to
        && eq_string_vec(&a.relates_to, &b.relates_to) && a.duplicate_of == b.duplicate_of
        && a.superseded_by == b.superseded_by && eq_opt_i64(&a.deleted_at, &b.deleted_at)
        && a.deleted_by == b.deleted_by && a.delete_reason == b.delete_reason
        && a.original_type == b.original_type && eq_string_vec(&a.labels, &b.labels)
        && eq_dep_vec(&a.dependencies, &b.dependencies) && eq_comment_vec(
        &a.comments,
        &b.comments,
    );
    r
}

impl Clone for Issue {
    /// Clones the record, preserving its model.
    fn clone(&self) -> (r: Issue)
        ensures
            r@ == self@,
    {
        Issue {
            id: self.id.clone(),
            content_hash: self.content_hash.clone(),
            title: self.title.clone(),
            description: self.description.clone(),
            design: self.design.clone(),
            acceptance_criteria: self.acceptance_criteria.clone(),
            notes: self.notes.clone(),
            status: self.status.clone(),
            priority: self.priority,
            issue_type: self.issue_type.clone(),
            assignee: clone_opt_string(&self.assignee),
            estimated_minutes: self.estimated_minutes,
            created_at: self.created_at,
            updated_at: self.updated_at,
            closed_at: self.closed_at,
            external_ref: clone_opt_string(&self.external_ref),
            sender: self.sender.clone(),
            ephemeral: self.ephemeral,
            replies_to: self.replies_to.clone(),
            relates_to: clone_strings(&self.relates_to),
            duplicate_of: self.duplicate_of.clone(),
            superseded_by: self.superseded_by.clone(),
            deleted_at: self.deleted_at,
            deleted_by: self.deleted_by.clone(),
            delete_reason: self.delete_reason.clone(),
            original_type: self.original_type.clone(),
            labels: clone_strings(&self.labels),
            dependencies: clone_deps(&self.dependencies),
            comments: clone_comments(&self.comments),
        }
    }
}


/// The relationship type a new dependency edge carries when none is
/// named.
pub fn default_dep_type() -> (r: String)
    ensures
        r@ == "blocks"@,
{
    String::from_str("blocks")
}

} // verus!
