//! The canonical log codec: each issue record is rendered as one JSON
//! object on one line, fields in a fixed order, and parsed back. The
//! module proves that parsing inverts rendering, which carries the
//! round-trip guarantee of export and import.

use crate::json::{
    jstr, lemma_sp_jstr_inv, lemma_sp_jstr_shrinks, p_jstr, push_jstr, sp_jstr,
};
use crate::model::{opt_i32_view, opt_i64_view, opt_str_view, Comment, CommentModel, DepModel,
    Dependency, Issue, IssueModel, wf_comment, wf_dep, wf_issue};
use crate::num::{
    dec_int, is_digit, lemma_dec_nat_digits, lemma_sp_i64_inv, lemma_sp_i64_shrinks, p_i64,
    push_dec_i64, sp_i64,
};
use crate::text::{is_prefix, push_char};
use vstd::prelude::*;

verus! {

/// Consumes an exact literal prefix.
pub open spec fn sp_lit(s: Seq<char>, lit: Seq<char>) -> Option<Seq<char>> {
    if is_prefix(lit, s) {
        Option::Some(s.skip(lit.len() as int))
    } else {
        Option::None
    }
}

/// A literal parses from itself plus a remainder.
pub proof fn lemma_sp_lit_inv(lit: Seq<char>, rest: Seq<char>)
    ensures
        sp_lit(lit + rest, lit) == Option::Some(rest),
{
    let s = lit + rest;
    assert(s.subrange(0, lit.len() as int) =~= lit);
    assert(s.skip(lit.len() as int) =~= rest);
}

/// Consumes `lit` starting at `pos`, exactly as [`sp_lit`] describes.
pub fn p_lit(s: &str, pos: usize, lit: &str) -> (r: Option<usize>)
    requires
        pos <= s@.len(),
    ensures
        r is Some <==> sp_lit(s@.skip(pos as int), lit@) is Some,
        r matches Option::Some(np) ==> pos <= np <= s@.len() && np == pos + lit@.len()
            && sp_lit(s@.skip(pos as int), lit@) == Option::Some(s@.skip(np as int)),
{
    let slen = s.unicode_len();
    let plen = lit.unicode_len();
    if plen > slen - pos {
        proof {
            assert(s@.skip(pos as int).len() < lit@.len());
        }
        return Option::None;
    }
    let mut k: usize = 0;
    while k < plen
        invariant
            slen == s@.len(),
            plen == lit@.len(),
            pos + plen <= slen,
            k <= plen,
            forall|j: int| 0 <= j < k ==> s@[pos + j] == lit@[j],
        decreases plen - k,
    {
        if s.get_char(pos + k) != lit.get_char(k) {
            proof {
                assert(s@.skip(pos as int).subrange(0, lit@.len() as int)[k as int] == s@[pos + k]);
            }
            return Option::None;
        }
        k = k + 1;
    }
    proof {
        assert(s@.skip(pos as int).subrange(0, lit@.len() as int) =~= lit@);
        assert(s@.skip(pos as int).skip(lit@.len() as int) =~= s@.skip(pos + plen));
    }
    Option::Some(pos + plen)
}

/// Rendering of an optional string: `null` when absent.
pub open spec fn render_opt_str(o: Option<Seq<char>>) -> Seq<char> {
    match o {
        Option::None => "null"@,
        Option::Some(v) => jstr(v),
    }
}

/// Parses `null` or a string literal.
pub open spec fn sp_opt_str(s: Seq<char>) -> Option<(Option<Seq<char>>, Seq<char>)> {
    match sp_lit(s, "null"@) {
        Option::Some(r) => Option::Some((Option::None, r)),
        Option::None => match sp_jstr(s) {
            Option::Some((v, r)) => Option::Some((Option::Some(v), r)),
            Option::None => Option::None,
        },
    }
}

pub proof fn lemma_sp_opt_str_inv(o: Option<Seq<char>>, rest: Seq<char>)
    ensures
        sp_opt_str(render_opt_str(o) + rest) == Option::Some((o, rest)),
{
    reveal_strlit("null");
    match o {
        Option::None => {
            lemma_sp_lit_inv("null"@, rest);
        },
        Option::Some(v) => {
            let s = jstr(v) + rest;
            assert(s[0] == '"');
            assert("null"@[0] == 'n');
            assert(!is_prefix("null"@, s)) by {
                if is_prefix("null"@, s) {
                    assert(s.subrange(0, "null"@.len() as int)[0] == s[0]);
                }
            }
            lemma_sp_jstr_inv(v, rest);
        },
    }
}

/// Rendering of an optional number: `null` when absent.
pub open spec fn render_opt_int(o: Option<int>) -> Seq<char> {
    match o {
        Option::None => "null"@,
        Option::Some(n) => dec_int(n),
    }
}

/// Parses `null` or a signed number.
pub open spec fn sp_opt_i64(s: Seq<char>) -> Option<(Option<int>, Seq<char>)> {
    match sp_lit(s, "null"@) {
        Option::Some(r) => Option::Some((Option::None, r)),
        Option::None => match sp_i64(s) {
            Option::Some((n, r)) => Option::Some((Option::Some(n), r)),
            Option::None => Option::None,
        },
    }
}

pub proof fn lemma_sp_opt_i64_inv(n: Option<i64>, rest: Seq<char>)
    requires
        rest.len() == 0 || !is_digit(rest[0]),
    ensures
        sp_opt_i64(render_opt_int(opt_i64_view(n)) + rest) == Option::Some(
            (opt_i64_view(n), rest),
        ),
{
    reveal_strlit("null");
    match n {
        Option::None => {
            lemma_sp_lit_inv("null"@, rest);
        },
        Option::Some(v) => {
            let s = dec_int(v as int) + rest;
            assert("null"@[0] == 'n');
            if v < 0 {
                assert(s[0] == '-');
            } else {
                lemma_dec_nat_digits(v as nat);
                assert(s[0] == dec_int(v as int)[0]);
                assert(is_digit(s[0]));
            }
            assert(!is_prefix("null"@, s)) by {
                if is_prefix("null"@, s) {
                    assert(s.subrange(0, "null"@.len() as int)[0] == s[0]);
                }
            }
            lemma_sp_i64_inv(v, rest);
        },
    }
}

/// Rendering of a boolean.
pub open spec fn render_bool(b: bool) -> Seq<char> {
    if b {
        "true"@
    } else {
        "false"@
    }
}

/// Parses `true` or `false`.
pub open spec fn sp_bool(s: Seq<char>) -> Option<(bool, Seq<char>)> {
    match sp_lit(s, "true"@) {
        Option::Some(r) => Option::Some((true, r)),
        Option::None => match sp_lit(s, "false"@) {
            Option::Some(r) => Option::Some((false, r)),
            Option::None => Option::None,
        },
    }
}

pub proof fn lemma_sp_bool_inv(b: bool, rest: Seq<char>)
    ensures
        sp_bool(render_bool(b) + rest) == Option::Some((b, rest)),
{
    reveal_strlit("true");
    reveal_strlit("false");
    if b {
        lemma_sp_lit_inv("true"@, rest);
    } else {
        let s = "false"@ + rest;
        assert(s[0] == 'f');
        assert(!is_prefix("true"@, s)) by {
            if is_prefix("true"@, s) {
                assert(s.subrange(0, "true"@.len() as int)[0] == s[0]);
            }
        }
        lemma_sp_lit_inv("false"@, rest);
    }
}

/// Appends `null` or a string literal.
pub fn push_opt_str(out: &mut String, o: &Option<String>)
    ensures
        final(out)@ == old(out)@ + render_opt_str(opt_str_view(*o)),
{
    match o {
        Option::None => {
            out.append("null");
        },
        Option::Some(v) => {
            push_jstr(out, v.as_str());
        },
    }
}

/// Appends `null` or a signed number.
pub fn push_opt_i64(out: &mut String, o: &Option<i64>)
    ensures
        final(out)@ == old(out)@ + render_opt_int(opt_i64_view(*o)),
{
    match o {
        Option::None => {
            out.append("null");
        },
        Option::Some(v) => {
            push_dec_i64(out, *v);
        },
    }
}

/// Appends `true` or `false`.
pub fn push_bool(out: &mut String, b: bool)
    ensures
        final(out)@ == old(out)@ + render_bool(b),
{
    if b {
        out.append("true");
    } else {
        out.append("false");
    }
}

/// Parses `null` or a string literal starting at `pos`.
pub fn p_opt_str(s: &str, pos: usize) -> (r: Option<(Option<String>, usize)>)
    requires
        pos <= s@.len(),
    ensures
        r is Some <==> sp_opt_str(s@.skip(pos as int)) is Some,
        r matches Option::Some(p) ==> pos <= p.1 <= s@.len() && sp_opt_str(s@.skip(pos as int))
            == Option::Some((opt_str_view(p.0), s@.skip(p.1 as int))),
{
    match p_lit(s, pos, "null") {
        Option::Some(np) => Option::Some((Option::None, np)),
        Option::None => {
            match p_jstr(s, pos) {
                Option::Some((v, np)) => Option::Some((Option::Some(v), np)),
                Option::None => Option::None,
            }
        },
    }
}

/// Parses `null` or a signed number starting at `pos`.
pub fn p_opt_i64(s: &str, pos: usize) -> (r: Option<(Option<i64>, usize)>)
    requires
        pos <= s@.len(),
    ensures
        r is Some <==> sp_opt_i64(s@.skip(pos as int)) is Some,
        r matches Option::Some(p) ==> pos <= p.1 <= s@.len() && sp_opt_i64(s@.skip(pos as int))
            == Option::Some((opt_i64_view(p.0), s@.skip(p.1 as int))),
{
    match p_lit(s, pos, "null") {
        Option::Some(np) => Option::Some((Option::None, np)),
        Option::None => {
            match p_i64(s, pos) {
                Option::Some((n, np)) => Option::Some((Option::Some(n), np)),
                Option::None => Option::None,
            }
        },
    }
}

/// Parses `true` or `false` starting at `pos`.
pub fn p_bool(s: &str, pos: usize) -> (r: Option<(bool, usize)>)
    requires
        pos <= s@.len(),
    ensures
        r is Some <==> sp_bool(s@.skip(pos as int)) is Some,
        r matches Option::Some(p) ==> pos <= p.1 <= s@.len() && sp_bool(s@.skip(pos as int))
            == Option::Some((p.0, s@.skip(p.1 as int))),
{
    match p_lit(s, pos, "true") {
        Option::Some(np) => Option::Some((true, np)),
        Option::None => {
            match p_lit(s, pos, "false") {
                Option::Some(np) => Option::Some((false, np)),
                Option::None => Option::None,
            }
        },
    }
}


/// Rendering of one dependency edge as a JSON object.
pub open spec fn render_dep(d: DepModel) -> Seq<char> {
    "{\"issue_id\":"@ + jstr(d.issue_id) + ",\"depends_on_id\":"@ + jstr(d.depends_on_id)
        + ",\"type\":"@ + jstr(d.type_) + ",\"created_at\":"@ + dec_int(d.created_at)
        + ",\"created_by\":"@ + jstr(d.created_by) + "}"@
}

/// Parses one dependency object.
pub open spec fn sp_dep(s: Seq<char>) -> Option<(DepModel, Seq<char>)> {
    match sp_lit(s, "{\"issue_id\":"@) {
        Option::None => Option::None,
        Option::Some(s1) => match sp_jstr(s1) {
            Option::None => Option::None,
            Option::Some((issue_id, s2)) => match sp_lit(s2, ",\"depends_on_id\":"@) {
                Option::None => Option::None,
                Option::Some(s3) => match sp_jstr(s3) {
                    Option::None => Option::None,
                    Option::Some((depends_on_id, s4)) => match sp_lit(s4, ",\"type\":"@) {
                        Option::None => Option::None,
                        Option::Some(s5) => match sp_jstr(s5) {
                            Option::None => Option::None,
                            Option::Some((type_, s6)) => match sp_lit(s6, ",\"created_at\":"@) {
                                Option::None => Option::None,
                                Option::Some(s7) => match sp_i64(s7) {
                                    Option::None => Option::None,
                                    Option::Some((created_at, s8)) => match sp_lit(
                                        s8,
                                        ",\"created_by\":"@,
                                    ) {
                                        Option::None => Option::None,
                                        Option::Some(s9) => match sp_jstr(s9) {
                                            Option::None => Option::None,
                                            Option::Some((created_by, s10)) => match sp_lit(
                                                s10,
                                                "}"@,
                                            ) {
                                                Option::None => Option::None,
                                                Option::Some(r) => Option::Some(
                                                    (
                                                        DepModel {
                                                            issue_id,
                                                            depends_on_id,
                                                            type_,
                                                            created_at,
                                                            created_by,
                                                        },
                                                        r,
                                                    ),
                                                ),
                                            },
                                        },
                                    },
                                },
                            },
                        },
                    },
                },
            },
        },
    }
}

/// Parsing a dependency object inverts rendering it.
pub proof fn lemma_sp_dep_inv(d: DepModel, rest: Seq<char>)
    requires
        wf_dep(d),
    ensures
        sp_dep(render_dep(d) + rest) == Option::Some((d, rest)),
{
    reveal_strlit(",\"created_by\":");
    let t10 = "}"@ + rest;
    let t9 = jstr(d.created_by) + t10;
    let t8 = ",\"created_by\":"@ + t9;
    let t7 = dec_int(d.created_at) + t8;
    let t6 = ",\"created_at\":"@ + t7;
    let t5 = jstr(d.type_) + t6;
    let t4 = ",\"type\":"@ + t5;
    let t3 = jstr(d.depends_on_id) + t4;
    let t2 = ",\"depends_on_id\":"@ + t3;
    let t1 = jstr(d.issue_id) + t2;
    let s = render_dep(d) + rest;
    assert(s =~= "{\"issue_id\":"@ + t1);
    lemma_sp_lit_inv("{\"issue_id\":"@, t1);
    lemma_sp_jstr_inv(d.issue_id, t2);
    lemma_sp_lit_inv(",\"depends_on_id\":"@, t3);
    lemma_sp_jstr_inv(d.depends_on_id, t4);
    lemma_sp_lit_inv(",\"type\":"@, t5);
    lemma_sp_jstr_inv(d.type_, t6);
    lemma_sp_lit_inv(",\"created_at\":"@, t7);
    assert(t8[0] == ',');
    assert(!is_digit(','));
    lemma_sp_i64_inv(d.created_at as i64, t8);
    assert(dec_int((d.created_at as i64) as int) == dec_int(d.created_at));
    lemma_sp_lit_inv(",\"created_by\":"@, t9);
    lemma_sp_jstr_inv(d.created_by, t10);
    lemma_sp_lit_inv("}"@, rest);
}

/// A successful dependency parse always consumes characters.
pub proof fn lemma_sp_dep_shrinks(s: Seq<char>)
    ensures
        sp_dep(s) matches Option::Some(p) ==> p.1.len() < s.len(),
{
    if sp_dep(s) is Some {
        let s1 = sp_lit(s, "{\"issue_id\":"@)->Some_0;
        lemma_sp_jstr_shrinks(s1);
        let (issue_id, s2) = sp_jstr(s1)->Some_0;
        let s3 = sp_lit(s2, ",\"depends_on_id\":"@)->Some_0;
        lemma_sp_jstr_shrinks(s3);
        let (depends_on_id, s4) = sp_jstr(s3)->Some_0;
        let s5 = sp_lit(s4, ",\"type\":"@)->Some_0;
        lemma_sp_jstr_shrinks(s5);
        let (type_, s6) = sp_jstr(s5)->Some_0;
        let s7 = sp_lit(s6, ",\"created_at\":"@)->Some_0;
        lemma_sp_i64_shrinks(s7);
        let (created_at, s8) = sp_i64(s7)->Some_0;
        let s9 = sp_lit(s8, ",\"created_by\":"@)->Some_0;
        lemma_sp_jstr_shrinks(s9);
        let (created_by, s10) = sp_jstr(s9)->Some_0;
        let r = sp_lit(s10, "}"@)->Some_0;
        assert(r.len() < s.len());
    }
}

/// Appends the rendering of one dependency edge.
pub fn push_dep(out: &mut String, d: &Dependency)
    ensures
        final(out)@ == old(out)@ + render_dep(d@),
{
    out.append("{\"issue_id\":");
    push_jstr(out, d.issue_id.as_str());
    out.append(",\"depends_on_id\":");
    push_jstr(out, d.depends_on_id.as_str());
    out.append(",\"type\":");
    push_jstr(out, d.type_.as_str());
    out.append(",\"created_at\":");
    push_dec_i64(out, d.created_at);
    out.append(",\"created_by\":");
    push_jstr(out, d.created_by.as_str());
    out.append("}");
    proof {
        assert(out@ =~= old(out)@ + render_dep(d@));
    }
}

/// Parses a dependency object starting at `pos`, exactly as [`sp_dep`]
/// describes.
pub fn p_dep(s: &str, pos: usize) -> (r: Option<(Dependency, usize)>)
    requires
        pos <= s@.len(),
    ensures
        r is Some <==> sp_dep(s@.skip(pos as int)) is Some,
        r matches Option::Some(p) ==> pos <= p.1 <= s@.len() && sp_dep(s@.skip(pos as int))
            == Option::Some((p.0@, s@.skip(p.1 as int))),
{
    let p1 = match p_lit(s, pos, "{\"issue_id\":") {
        Option::Some(np) => np,
        Option::None => {
            return Option::None;
        },
    };
    let (issue_id, p2) = match p_jstr(s, p1) {
        Option::Some(v) => v,
        Option::None => {
            return Option::None;
        },
    };
    let p3 = match p_lit(s, p2, ",\"depends_on_id\":") {
        Option::Some(np) => np,
        Option::None => {
            return Option::None;
        },
    };
    let (depends_on_id, p4) = match p_jstr(s, p3) {
        Option::Some(v) => v,
        Option::None => {
            return Option::None;
        },
    };
    let p5 = match p_lit(s, p4, ",\"type\":") {
        Option::Some(np) => np,
        Option::None => {
            return Option::None;
        },
    };
    let (type_, p6) = match p_jstr(s, p5) {
        Option::Some(v) => v,
        Option::None => {
            return Option::None;
        },
    };
    let p7 = match p_lit(s, p6, ",\"created_at\":") {
        Option::Some(np) => np,
        Option::None => {
            return Option::None;
        },
    };
    let (created_at, p8) = match p_i64(s, p7) {
        Option::Some(v) => v,
        Option::None => {
            return Option::None;
        },
    };
    let p9 = match p_lit(s, p8, ",\"created_by\":") {
        Option::Some(np) => np,
        Option::None => {
            return Option::None;
        },
    };
    let (created_by, p10) = match p_jstr(s, p9) {
        Option::Some(v) => v,
        Option::None => {
            return Option::None;
        },
    };
    let p11 = match p_lit(s, p10, "}") {
        Option::Some(np) => np,
        Option::None => {
            return Option::None;
        },
    };
    Option::Some(
        (Dependency { issue_id, depends_on_id, type_, created_at, created_by }, p11),
    )
}


/// Rendering of one comment as a JSON object.
pub open spec fn render_comment(c: CommentModel) -> Seq<char> {
    "{\"id\":"@ + dec_int(c.id) + ",\"issue_id\":"@ + jstr(c.issue_id) + ",\"author\":"@
        + jstr(c.author) + ",\"text\":"@ + jstr(c.text) + ",\"created_at\":"@ + dec_int(
        c.created_at,
    ) + "}"@
}

/// Parses one comment object.
pub open spec fn sp_comment(s: Seq<char>) -> Option<(CommentModel, Seq<char>)> {
    match sp_lit(s, "{\"id\":"@) {
        Option::None => Option::None,
        Option::Some(s1) => match sp_i64(s1) {
            Option::None => Option::None,
            Option::Some((id, s2)) => match sp_lit(s2, ",\"issue_id\":"@) {
                Option::None => Option::None,
                Option::Some(s3) => match sp_jstr(s3) {
                    Option::None => Option::None,
                    Option::Some((issue_id, s4)) => match sp_lit(s4, ",\"author\":"@) {
                        Option::None => Option::None,
                        Option::Some(s5) => match sp_jstr(s5) {
                            Option::None => Option::None,
                            Option::Some((author, s6)) => match sp_lit(s6, ",\"text\":"@) {
                                Option::None => Option::None,
                                Option::Some(s7) => match sp_jstr(s7) {
                                    Option::None => Option::None,
                                    Option::Some((text, s8)) => match sp_lit(
                                        s8,
                                        ",\"created_at\":"@,
                                    ) {
                                        Option::None => Option::None,
                                        Option::Some(s9) => match sp_i64(s9) {
                                            Option::None => Option::None,
                                            Option::Some((created_at, s10)) => match sp_lit(
                                                s10,
                                                "}"@,
                                            ) {
                                                Option::None => Option::None,
                                                Option::Some(r) => Option::Some(
                                                    (
                                                        CommentModel {
                                                            id,
                                                            issue_id,
                                                            author,
                                                            text,
                                                            created_at,
                                                        },
                                                        r,
                                                    ),
                                                ),
                                            },
                                        },
                                    },
                                },
                            },
                        },
                    },
                },
            },
        },
    }
}

/// Parsing a comment object inverts rendering it.
pub proof fn lemma_sp_comment_inv(c: CommentModel, rest: Seq<char>)
    requires
        wf_comment(c),
    ensures
        sp_comment(render_comment(c) + rest) == Option::Some((c, rest)),
{
    reveal_strlit(",\"issue_id\":");
    reveal_strlit("}");
    let t10 = "}"@ + rest;
    let t9 = dec_int(c.created_at) + t10;
    let t8 = ",\"created_at\":"@ + t9;
    let t7 = jstr(c.text) + t8;
    let t6 = ",\"text\":"@ + t7;
    let t5 = jstr(c.author) + t6;
    let t4 = ",\"author\":"@ + t5;
    let t3 = jstr(c.issue_id) + t4;
    let t2 = ",\"issue_id\":"@ + t3;
    let t1 = dec_int(c.id) + t2;
    let s = render_comment(c) + rest;
    assert(s =~= "{\"id\":"@ + t1);
    lemma_sp_lit_inv("{\"id\":"@, t1);
    assert(t2[0] == ',');
    assert(!is_digit(','));
    lemma_sp_i64_inv(c.id as i64, t2);
    assert(dec_int((c.id as i64) as int) == dec_int(c.id));
    lemma_sp_lit_inv(",\"issue_id\":"@, t3);
    lemma_sp_jstr_inv(c.issue_id, t4);
    lemma_sp_lit_inv(",\"author\":"@, t5);
    lemma_sp_jstr_inv(c.author, t6);
    lemma_sp_lit_inv(",\"text\":"@, t7);
    lemma_sp_jstr_inv(c.text, t8);
    lemma_sp_lit_inv(",\"created_at\":"@, t9);
    assert(t10[0] == '}');
    assert(!is_digit('}'));
    lemma_sp_i64_inv(c.created_at as i64, t10);
    assert(dec_int((c.created_at as i64) as int) == dec_int(c.created_at));
    lemma_sp_lit_inv("}"@, rest);
}

/// A successful comment parse always consumes characters.
pub proof fn lemma_sp_comment_shrinks(s: Seq<char>)
    ensures
        sp_comment(s) matches Option::Some(p) ==> p.1.len() < s.len(),
{
    if sp_comment(s) is Some {
        let s1 = sp_lit(s, "{\"id\":"@)->Some_0;
        lemma_sp_i64_shrinks(s1);
        let (id, s2) = sp_i64(s1)->Some_0;
        let s3 = sp_lit(s2, ",\"issue_id\":"@)->Some_0;
        lemma_sp_jstr_shrinks(s3);
        let (issue_id, s4) = sp_jstr(s3)->Some_0;
        let s5 = sp_lit(s4, ",\"author\":"@)->Some_0;
        lemma_sp_jstr_shrinks(s5);
        let (author, s6) = sp_jstr(s5)->Some_0;
        let s7 = sp_lit(s6, ",\"text\":"@)->Some_0;
        lemma_sp_jstr_shrinks(s7);
        let (text, s8) = sp_jstr(s7)->Some_0;
        let s9 = sp_lit(s8, ",\"created_at\":"@)->Some_0;
        lemma_sp_i64_shrinks(s9);
        let (created_at, s10) = sp_i64(s9)->Some_0;
        let r = sp_lit(s10, "}"@)->Some_0;
        assert(r.len() < s.len());
    }
}

/// Appends the rendering of one comment.
pub fn push_comment(out: &mut String, c: &Comment)
    ensures
        final(out)@ == old(out)@ + render_comment(c@),
{
    out.append("{\"id\":");
    push_dec_i64(out, c.id);
    out.append(",\"issue_id\":");
    push_jstr(out, c.issue_id.as_str());
    out.append(",\"author\":");
    push_jstr(out, c.author.as_str());
    out.append(",\"text\":");
    push_jstr(out, c.text.as_str());
    out.append(",\"created_at\":");
    push_dec_i64(out, c.created_at);
    out.append("}");
    proof {
        assert(out@ =~= old(out)@ + render_comment(c@));
    }
}

/// Parses a comment object starting at `pos`, exactly as [`sp_comment`]
/// describes.
pub fn p_comment(s: &str, pos: usize) -> (r: Option<(Comment, usize)>)
    requires
        pos <= s@.len(),
    ensures
        r is Some <==> sp_comment(s@.skip(pos as int)) is Some,
        r matches Option::Some(p) ==> pos <= p.1 <= s@.len() && sp_comment(s@.skip(pos as int))
            == Option::Some((p.0@, s@.skip(p.1 as int))),
{
    let p1 = match p_lit(s, pos, "{\"id\":") {
        Option::Some(np) => np,
        Option::None => {
            return Option::None;
        },
    };
    let (id, p2) = match p_i64(s, p1) {
        Option::Some(v) => v,
        Option::None => {
            return Option::None;
        },
    };
    let p3 = match p_lit(s, p2, ",\"issue_id\":") {
        Option::Some(np) => np,
        Option::None => {
            return Option::None;
        },
    };
    let (issue_id, p4) = match p_jstr(s, p3) {
        Option::Some(v) => v,
        Option::None => {
            return Option::None;
        },
    };
    let p5 = match p_lit(s, p4, ",\"author\":") {
        Option::Some(np) => np,
        Option::None => {
            return Option::None;
        },
    };
    let (author, p6) = match p_jstr(s, p5) {
        Option::Some(v) => v,
        Option::None => {
            return Option::None;
        },
    };
    let p7 = match p_lit(s, p6, ",\"text\":") {
        Option::Some(np) => np,
        Option::None => {
            return Option::None;
        },
    };
    let (text, p8) = match p_jstr(s, p7) {
        Option::Some(v) => v,
        Option::None => {
            return Option::None;
        },
    };
    let p9 = match p_lit(s, p8, ",\"created_at\":") {
        Option::Some(np) => np,
        Option::None => {
            return Option::None;
        },
    };
    let (created_at, p10) = match p_i64(s, p9) {
        Option::Some(v) => v,
        Option::None => {
            return Option::None;
        },
    };
    let p11 = match p_lit(s, p10, "}") {
        Option::Some(np) => np,
        Option::None => {
            return Option::None;
        },
    };
    Option::Some((Comment { id, issue_id, author, text, created_at }, p11))
}


/// Rendering of the elements of a string array, comma separated.
pub open spec fn render_strarr_items(vs: Seq<Seq<char>>) -> Seq<char>
    decreases vs.len(),
{
    if vs.len() == 0 {
        Seq::<char>::empty()
    } else if vs.len() == 1 {
        jstr(vs[0])
    } else {
        jstr(vs[0]) + seq![','] + render_strarr_items(vs.skip(1))
    }
}

/// Rendering of a string array.
pub open spec fn render_strarr(vs: Seq<Seq<char>>) -> Seq<char> {
    seq!['['] + render_strarr_items(vs) + seq![']']
}

/// Parses the elements of a string array after the opening bracket.
pub open spec fn sp_strarr_items(s: Seq<char>) -> Option<(Seq<Seq<char>>, Seq<char>)>
    decreases s.len(),
{
    match sp_jstr(s) {
        Option::None => Option::None,
        Option::Some((v, r)) => {
            if r.len() == 0 {
                Option::None
            } else if r[0] == ',' {
                proof {
                    lemma_sp_jstr_shrinks(s);
                }
                match sp_strarr_items(r.skip(1)) {
                    Option::None => Option::None,
                    Option::Some((vs, r2)) => Option::Some((seq![v] + vs, r2)),
                }
            } else if r[0] == ']' {
                Option::Some((seq![v], r.skip(1)))
            } else {
                Option::None
            }
        },
    }
}

/// Parses a string array.
pub open spec fn sp_strarr(s: Seq<char>) -> Option<(Seq<Seq<char>>, Seq<char>)> {
    if s.len() >= 2 && s[0] == '[' && s[1] == ']' {
        Option::Some((Seq::<Seq<char>>::empty(), s.skip(2)))
    } else if s.len() >= 1 && s[0] == '[' {
        sp_strarr_items(s.skip(1))
    } else {
        Option::None
    }
}

proof fn lemma_strarr_items_inv(vs: Seq<Seq<char>>, rest: Seq<char>)
    requires
        vs.len() >= 1,
    ensures
        sp_strarr_items(render_strarr_items(vs) + seq![']'] + rest) == Option::Some((vs, rest)),
    decreases vs.len(),
{
    if vs.len() == 1 {
        let tail = seq![']'] + rest;
        assert(render_strarr_items(vs) + seq![']'] + rest =~= jstr(vs[0]) + tail);
        lemma_sp_jstr_inv(vs[0], tail);
        assert(tail[0] == ']');
        assert(tail.skip(1) =~= rest);
        assert(seq![vs[0]] =~= vs);
    } else {
        let tail = seq![','] + (render_strarr_items(vs.skip(1)) + seq![']'] + rest);
        assert(render_strarr_items(vs) + seq![']'] + rest =~= jstr(vs[0]) + tail);
        lemma_sp_jstr_inv(vs[0], tail);
        assert(tail[0] == ',');
        assert(tail.skip(1) =~= render_strarr_items(vs.skip(1)) + seq![']'] + rest);
        lemma_strarr_items_inv(vs.skip(1), rest);
        assert(seq![vs[0]] + vs.skip(1) =~= vs);
    }
}

/// Parsing a string array inverts rendering it.
pub proof fn lemma_sp_strarr_inv(vs: Seq<Seq<char>>, rest: Seq<char>)
    requires
    ensures
        sp_strarr(render_strarr(vs) + rest) == Option::Some((vs, rest)),
{
    let s = render_strarr(vs) + rest;
    if vs.len() == 0 {
        assert(s[0] == '[');
        assert(s[1] == ']');
        assert(s.skip(2) =~= rest);
    } else {
        assert(s[0] == '[');
        assert(s[1] == jstr(vs[0])[0]);
        
        assert(s[1] != ']');
        assert(s.skip(1) =~= render_strarr_items(vs) + seq![']'] + rest);
        lemma_strarr_items_inv(vs, rest);
    }
}

fn push_strarr_items(out: &mut String, vs: &Vec<String>, i: usize)
    requires
        i < vs.len(),
    ensures
        final(out)@ == old(out)@ + render_strarr_items(vs.deep_view().skip(i as int)),
    decreases vs.len() - i,
{
    push_jstr(out, vs[i].as_str());
    proof {
        assert(vs.deep_view().skip(i as int)[0] == vs@[i as int]@);
    }
    if i + 1 < vs.len() {
        push_char(out, ',');
        push_strarr_items(out, vs, i + 1);
        proof {
            assert(vs.deep_view().skip(i as int).skip(1) =~= vs.deep_view().skip(i as int + 1));
            assert(out@ =~= old(out)@ + render_strarr_items(vs.deep_view().skip(i as int)));
        }
    } else {
        proof {
            assert(vs.deep_view().skip(i as int).len() == 1);
            assert(out@ =~= old(out)@ + render_strarr_items(vs.deep_view().skip(i as int)));
        }
    }
}

/// Appends the rendering of a string array.
pub fn push_strarr(out: &mut String, vs: &Vec<String>)
    ensures
        final(out)@ == old(out)@ + render_strarr(vs.deep_view()),
{
    push_char(out, '[');
    if vs.len() > 0 {
        push_strarr_items(out, vs, 0);
        proof {
            assert(vs.deep_view().skip(0) =~= vs.deep_view());
        }
    }
    push_char(out, ']');
    proof {
        assert(out@ =~= old(out)@ + render_strarr(vs.deep_view()));
    }
}

/// Parses a string array starting at `pos`, exactly as [`sp_strarr`]
/// describes.
pub fn p_strarr(s: &str, pos: usize) -> (r: Option<(Vec<String>, usize)>)
    requires
        pos <= s@.len(),
    ensures
        r is Some <==> sp_strarr(s@.skip(pos as int)) is Some,
        r matches Option::Some(p) ==> pos <= p.1 <= s@.len() && sp_strarr(s@.skip(pos as int))
            == Option::Some((p.0.deep_view(), s@.skip(p.1 as int))),
{
    let slen = s.unicode_len();
    if pos >= slen || s.get_char(pos) != '[' {
        proof {
            if pos < slen {
                assert(s@.skip(pos as int)[0] == s@[pos as int]);
            }
        }
        return Option::None;
    }
    proof {
        assert(s@.skip(pos as int)[0] == s@[pos as int]);
        assert(s@.skip(pos as int).skip(1) =~= s@.skip(pos as int + 1));
    }
    if pos + 1 < slen && s.get_char(pos + 1) == ']' {
        let out: Vec<String> = Vec::new();
        proof {
            assert(s@.skip(pos as int)[1] == s@[pos as int + 1]);
            assert(s@.skip(pos as int).skip(2) =~= s@.skip(pos as int + 2));
            assert(out.deep_view() =~= Seq::<Seq<char>>::empty());
        }
        return Option::Some((out, pos + 2));
    }
    proof {
        if pos + 1 < slen {
            assert(s@.skip(pos as int)[1] == s@[pos as int + 1]);
        }
    }
    let mut out: Vec<String> = Vec::new();
    let mut i: usize = pos + 1;
    loop
        invariant
            slen == s@.len(),
            pos + 1 <= i <= slen,
            sp_strarr(s@.skip(pos as int)) == sp_strarr_items(s@.skip(pos as int + 1)),
            match sp_strarr_items(s@.skip(i as int)) {
                Option::Some(p) => sp_strarr_items(s@.skip(pos as int + 1)) == Option::Some(
                    (out.deep_view() + p.0, p.1),
                ),
                Option::None => sp_strarr_items(s@.skip(pos as int + 1)) is None,
            },
        decreases slen - i,
    {
        match p_jstr(s, i) {
            Option::None => {
                return Option::None;
            },
            Option::Some((v, np)) => {
                proof {
                    lemma_sp_jstr_shrinks(s@.skip(i as int));
                }
                if np >= slen {
                    proof {
                        assert(s@.skip(np as int).len() == 0);
                    }
                    return Option::None;
                }
                let c = s.get_char(np);
                proof {
                    assert(s@.skip(np as int)[0] == s@[np as int]);
                    assert(s@.skip(np as int).skip(1) =~= s@.skip(np as int + 1));
                }
                let ghost preout = out.deep_view();
                let ghost velem = v@;
                out.push(v);
                proof {
                    assert(out.deep_view() =~= preout.push(velem));
                }
                if c == ',' {
                    i = np + 1;
                    proof {
                        match sp_strarr_items(s@.skip(i as int)) {
                            Option::Some(p) => {
                                assert(preout + (seq![velem] + p.0) =~= out.deep_view() + p.0);
                            },
                            Option::None => {},
                        }
                    }
                } else if c == ']' {
                    proof {
                        assert(preout + seq![velem] =~= out.deep_view());
                    }
                    return Option::Some((out, np + 1));
                } else {
                    return Option::None;
                }
            },
        }
    }
}

/// Rendering of the elements of a dependency array, comma separated.
pub open spec fn render_deparr_items(vs: Seq<DepModel>) -> Seq<char>
    decreases vs.len(),
{
    if vs.len() == 0 {
        Seq::<char>::empty()
    } else if vs.len() == 1 {
        render_dep(vs[0])
    } else {
        render_dep(vs[0]) + seq![','] + render_deparr_items(vs.skip(1))
    }
}

/// Rendering of a dependency array.
pub open spec fn render_deparr(vs: Seq<DepModel>) -> Seq<char> {
    seq!['['] + render_deparr_items(vs) + seq![']']
}

/// Parses the elements of a dependency array after the opening bracket.
pub open spec fn sp_deparr_items(s: Seq<char>) -> Option<(Seq<DepModel>, Seq<char>)>
    decreases s.len(),
{
    match sp_dep(s) {
        Option::None => Option::None,
        Option::Some((v, r)) => {
            if r.len() == 0 {
                Option::None
            } else if r[0] == ',' {
                proof {
                    lemma_sp_dep_shrinks(s);
                }
                match sp_deparr_items(r.skip(1)) {
                    Option::None => Option::None,
                    Option::Some((vs, r2)) => Option::Some((seq![v] + vs, r2)),
                }
            } else if r[0] == ']' {
                Option::Some((seq![v], r.skip(1)))
            } else {
                Option::None
            }
        },
    }
}

/// Parses a dependency array.
pub open spec fn sp_deparr(s: Seq<char>) -> Option<(Seq<DepModel>, Seq<char>)> {
    if s.len() >= 2 && s[0] == '[' && s[1] == ']' {
        Option::Some((Seq::<DepModel>::empty(), s.skip(2)))
    } else if s.len() >= 1 && s[0] == '[' {
        sp_deparr_items(s.skip(1))
    } else {
        Option::None
    }
}

#[verifier::rlimit(100)]
#[verifier::spinoff_prover]
proof fn lemma_deparr_items_inv(vs: Seq<DepModel>, rest: Seq<char>)
    requires
        vs.len() >= 1,
        forall|k: int| 0 <= k < vs.len() ==> wf_dep(#[trigger] vs[k]),
    ensures
        sp_deparr_items(render_deparr_items(vs) + seq![']'] + rest) == Option::Some((vs, rest)),
    decreases vs.len(),
{
    if vs.len() == 1 {
        let tail = seq![']'] + rest;
        assert(render_deparr_items(vs) + seq![']'] + rest =~= render_dep(vs[0]) + tail);
        lemma_sp_dep_inv(vs[0], tail);
        assert(tail[0] == ']');
        assert(tail.skip(1) =~= rest);
        assert(seq![vs[0]] =~= vs);
    } else {
        let tail = seq![','] + (render_deparr_items(vs.skip(1)) + seq![']'] + rest);
        assert(render_deparr_items(vs) + seq![']'] + rest =~= render_dep(vs[0]) + tail);
        lemma_sp_dep_inv(vs[0], tail);
        assert(tail[0] == ',');
        assert(tail.skip(1) =~= render_deparr_items(vs.skip(1)) + seq![']'] + rest);
        lemma_deparr_items_inv(vs.skip(1), rest);
        assert(seq![vs[0]] + vs.skip(1) =~= vs);
    }
}

/// Parsing a dependency array inverts rendering it.
pub proof fn lemma_sp_deparr_inv(vs: Seq<DepModel>, rest: Seq<char>)
    requires
        forall|k: int| 0 <= k < vs.len() ==> wf_dep(#[trigger] vs[k]),
    ensures
        sp_deparr(render_deparr(vs) + rest) == Option::Some((vs, rest)),
{
    let s = render_deparr(vs) + rest;
    if vs.len() == 0 {
        assert(s[0] == '[');
        assert(s[1] == ']');
        assert(s.skip(2) =~= rest);
    } else {
        assert(s[0] == '[');
        assert(s[1] == render_dep(vs[0])[0]);
        reveal_strlit("{\"issue_id\":");
        assert(render_dep(vs[0])[0] == '{');
        assert(s[1] != ']');
        assert(s.skip(1) =~= render_deparr_items(vs) + seq![']'] + rest);
        lemma_deparr_items_inv(vs, rest);
    }
}

fn push_deparr_items(out: &mut String, vs: &Vec<Dependency>, i: usize)
    requires
        i < vs.len(),
    ensures
        final(out)@ == old(out)@ + render_deparr_items(vs.deep_view().skip(i as int)),
    decreases vs.len() - i,
{
    push_dep(out, &vs[i]);
    proof {
        assert(vs.deep_view().skip(i as int)[0] == vs@[i as int]@);
    }
    if i + 1 < vs.len() {
        push_char(out, ',');
        push_deparr_items(out, vs, i + 1);
        proof {
            assert(vs.deep_view().skip(i as int).skip(1) =~= vs.deep_view().skip(i as int + 1));
            assert(out@ =~= old(out)@ + render_deparr_items(vs.deep_view().skip(i as int)));
        }
    } else {
        proof {
            assert(vs.deep_view().skip(i as int).len() == 1);
            assert(out@ =~= old(out)@ + render_deparr_items(vs.deep_view().skip(i as int)));
        }
    }
}

/// Appends the rendering of a dependency array.
pub fn push_deparr(out: &mut String, vs: &Vec<Dependency>)
    ensures
        final(out)@ == old(out)@ + render_deparr(vs.deep_view()),
{
    push_char(out, '[');
    if vs.len() > 0 {
        push_deparr_items(out, vs, 0);
        proof {
            assert(vs.deep_view().skip(0) =~= vs.deep_view());
        }
    }
    push_char(out, ']');
    proof {
        assert(out@ =~= old(out)@ + render_deparr(vs.deep_view()));
    }
}

/// Parses a dependency array starting at `pos`, exactly as [`sp_deparr`]
/// describes.
pub fn p_deparr(s: &str, pos: usize) -> (r: Option<(Vec<Dependency>, usize)>)
    requires
        pos <= s@.len(),
    ensures
        r is Some <==> sp_deparr(s@.skip(pos as int)) is Some,
        r matches Option::Some(p) ==> pos <= p.1 <= s@.len() && sp_deparr(s@.skip(pos as int))
            == Option::Some((p.0.deep_view(), s@.skip(p.1 as int))),
{
    let slen = s.unicode_len();
    if pos >= slen || s.get_char(pos) != '[' {
        proof {
            if pos < slen {
                assert(s@.skip(pos as int)[0] == s@[pos as int]);
            }
        }
        return Option::None;
    }
    proof {
        assert(s@.skip(pos as int)[0] == s@[pos as int]);
        assert(s@.skip(pos as int).skip(1) =~= s@.skip(pos as int + 1));
    }
    if pos + 1 < slen && s.get_char(pos + 1) == ']' {
        let out: Vec<Dependency> = Vec::new();
        proof {
            assert(s@.skip(pos as int)[1] == s@[pos as int + 1]);
            assert(s@.skip(pos as int).skip(2) =~= s@.skip(pos as int + 2));
            assert(out.deep_view() =~= Seq::<DepModel>::empty());
        }
        return Option::Some((out, pos + 2));
    }
    proof {
        if pos + 1 < slen {
            assert(s@.skip(pos as int)[1] == s@[pos as int + 1]);
        }
    }
    let mut out: Vec<Dependency> = Vec::new();
    let mut i: usize = pos + 1;
    loop
        invariant
            slen == s@.len(),
            pos + 1 <= i <= slen,
            sp_deparr(s@.skip(pos as int)) == sp_deparr_items(s@.skip(pos as int + 1)),
            match sp_deparr_items(s@.skip(i as int)) {
                Option::Some(p) => sp_deparr_items(s@.skip(pos as int + 1)) == Option::Some(
                    (out.deep_view() + p.0, p.1),
                ),
                Option::None => sp_deparr_items(s@.skip(pos as int + 1)) is None,
            },
        decreases slen - i,
    {
        match p_dep(s, i) {
            Option::None => {
                return Option::None;
            },
            Option::Some((v, np)) => {
                proof {
                    lemma_sp_dep_shrinks(s@.skip(i as int));
                }
                if np >= slen {
                    proof {
                        assert(s@.skip(np as int).len() == 0);
                    }
                    return Option::None;
                }
                let c = s.get_char(np);
                proof {
                    assert(s@.skip(np as int)[0] == s@[np as int]);
                    assert(s@.skip(np as int).skip(1) =~= s@.skip(np as int + 1));
                }
                let ghost preout = out.deep_view();
                let ghost velem = v@;
                out.push(v);
                proof {
                    assert(out.deep_view() =~= preout.push(velem));
                }
                if c == ',' {
                    i = np + 1;
                    proof {
                        match sp_deparr_items(s@.skip(i as int)) {
                            Option::Some(p) => {
                                assert(preout + (seq![velem] + p.0) =~= out.deep_view() + p.0);
                            },
                            Option::None => {},
                        }
                    }
                } else if c == ']' {
                    proof {
                        assert(preout + seq![velem] =~= out.deep_view());
                    }
                    return Option::Some((out, np + 1));
                } else {
                    return Option::None;
                }
            },
        }
    }
}

/// Rendering of the elements of a comment array, comma separated.
pub open spec fn render_comarr_items(vs: Seq<CommentModel>) -> Seq<char>
    decreases vs.len(),
{
    if vs.len() == 0 {
        Seq::<char>::empty()
    } else if vs.len() == 1 {
        render_comment(vs[0])
    } else {
        render_comment(vs[0]) + seq![','] + render_comarr_items(vs.skip(1))
    }
}

/// Rendering of a comment array.
pub open spec fn render_comarr(vs: Seq<CommentModel>) -> Seq<char> {
    seq!['['] + render_comarr_items(vs) + seq![']']
}

/// Parses the elements of a comment array after the opening bracket.
pub open spec fn sp_comarr_items(s: Seq<char>) -> Option<(Seq<CommentModel>, Seq<char>)>
    decreases s.len(),
{
    match sp_comment(s) {
        Option::None => Option::None,
        Option::Some((v, r)) => {
            if r.len() == 0 {
                Option::None
            } else if r[0] == ',' {
                proof {
                    lemma_sp_comment_shrinks(s);
                }
                match sp_comarr_items(r.skip(1)) {
                    Option::None => Option::None,
                    Option::Some((vs, r2)) => Option::Some((seq![v] + vs, r2)),
                }
            } else if r[0] == ']' {
                Option::Some((seq![v], r.skip(1)))
            } else {
                Option::None
            }
        },
    }
}

/// Parses a comment array.
pub open spec fn sp_comarr(s: Seq<char>) -> Option<(Seq<CommentModel>, Seq<char>)> {
    if s.len() >= 2 && s[0] == '[' && s[1] == ']' {
        Option::Some((Seq::<CommentModel>::empty(), s.skip(2)))
    } else if s.len() >= 1 && s[0] == '[' {
        sp_comarr_items(s.skip(1))
    } else {
        Option::None
    }
}

#[verifier::rlimit(100)]
#[verifier::spinoff_prover]
proof fn lemma_comarr_items_inv(vs: Seq<CommentModel>, rest: Seq<char>)
    requires
        vs.len() >= 1,
        forall|k: int| 0 <= k < vs.len() ==> wf_comment(#[trigger] vs[k]),
    ensures
        sp_comarr_items(render_comarr_items(vs) + seq![']'] + rest) == Option::Some((vs, rest)),
    decreases vs.len(),
{
    if vs.len() == 1 {
        let tail = seq![']'] + rest;
        assert(render_comarr_items(vs) + seq![']'] + rest =~= render_comment(vs[0]) + tail);
        lemma_sp_comment_inv(vs[0], tail);
        assert(tail[0] == ']');
        assert(tail.skip(1) =~= rest);
        assert(seq![vs[0]] =~= vs);
    } else {
        let tail = seq![','] + (render_comarr_items(vs.skip(1)) + seq![']'] + rest);
        assert(render_comarr_items(vs) + seq![']'] + rest =~= render_comment(vs[0]) + tail);
        lemma_sp_comment_inv(vs[0], tail);
        assert(tail[0] == ',');
        assert(tail.skip(1) =~= render_comarr_items(vs.skip(1)) + seq![']'] + rest);
        lemma_comarr_items_inv(vs.skip(1), rest);
        assert(seq![vs[0]] + vs.skip(1) =~= vs);
    }
}

/// Parsing a comment array inverts rendering it.
pub proof fn lemma_sp_comarr_inv(vs: Seq<CommentModel>, rest: Seq<char>)
    requires
        forall|k: int| 0 <= k < vs.len() ==> wf_comment(#[trigger] vs[k]),
    ensures
        sp_comarr(render_comarr(vs) + rest) == Option::Some((vs, rest)),
{
    let s = render_comarr(vs) + rest;
    if vs.len() == 0 {
        assert(s[0] == '[');
        assert(s[1] == ']');
        assert(s.skip(2) =~= rest);
    } else {
        assert(s[0] == '[');
        assert(s[1] == render_comment(vs[0])[0]);
        reveal_strlit("{\"id\":");
        assert(render_comment(vs[0])[0] == '{');
        assert(s[1] != ']');
        assert(s.skip(1) =~= render_comarr_items(vs) + seq![']'] + rest);
        lemma_comarr_items_inv(vs, rest);
    }
}

fn push_comarr_items(out: &mut String, vs: &Vec<Comment>, i: usize)
    requires
        i < vs.len(),
    ensures
        final(out)@ == old(out)@ + render_comarr_items(vs.deep_view().skip(i as int)),
    decreases vs.len() - i,
{
    push_comment(out, &vs[i]);
    proof {
        assert(vs.deep_view().skip(i as int)[0] == vs@[i as int]@);
    }
    if i + 1 < vs.len() {
        push_char(out, ',');
        push_comarr_items(out, vs, i + 1);
        proof {
            assert(vs.deep_view().skip(i as int).skip(1) =~= vs.deep_view().skip(i as int + 1));
            assert(out@ =~= old(out)@ + render_comarr_items(vs.deep_view().skip(i as int)));
        }
    } else {
        proof {
            assert(vs.deep_view().skip(i as int).len() == 1);
            assert(out@ =~= old(out)@ + render_comarr_items(vs.deep_view().skip(i as int)));
        }
    }
}

/// Appends the rendering of a comment array.
pub fn push_comarr(out: &mut String, vs: &Vec<Comment>)
    ensures
        final(out)@ == old(out)@ + render_comarr(vs.deep_view()),
{
    push_char(out, '[');
    if vs.len() > 0 {
        push_comarr_items(out, vs, 0);
        proof {
            assert(vs.deep_view().skip(0) =~= vs.deep_view());
        }
    }
    push_char(out, ']');
    proof {
        assert(out@ =~= old(out)@ + render_comarr(vs.deep_view()));
    }
}

/// Parses a comment array starting at `pos`, exactly as [`sp_comarr`]
/// describes.
pub fn p_comarr(s: &str, pos: usize) -> (r: Option<(Vec<Comment>, usize)>)
    requires
        pos <= s@.len(),
    ensures
        r is Some <==> sp_comarr(s@.skip(pos as int)) is Some,
        r matches Option::Some(p) ==> pos <= p.1 <= s@.len() && sp_comarr(s@.skip(pos as int))
            == Option::Some((p.0.deep_view(), s@.skip(p.1 as int))),
{
    let slen = s.unicode_len();
    if pos >= slen || s.get_char(pos) != '[' {
        proof {
            if pos < slen {
                assert(s@.skip(pos as int)[0] == s@[pos as int]);
            }
        }
        return Option::None;
    }
    proof {
        assert(s@.skip(pos as int)[0] == s@[pos as int]);
        assert(s@.skip(pos as int).skip(1) =~= s@.skip(pos as int + 1));
    }
    if pos + 1 < slen && s.get_char(pos + 1) == ']' {
        let out: Vec<Comment> = Vec::new();
        proof {
            assert(s@.skip(pos as int)[1] == s@[pos as int + 1]);
            assert(s@.skip(pos as int).skip(2) =~= s@.skip(pos as int + 2));
            assert(out.deep_view() =~= Seq::<CommentModel>::empty());
        }
        return Option::Some((out, pos + 2));
    }
    proof {
        if pos + 1 < slen {
            assert(s@.skip(pos as int)[1] == s@[pos as int + 1]);
        }
    }
    let mut out: Vec<Comment> = Vec::new();
    let mut i: usize = pos + 1;
    loop
        invariant
            slen == s@.len(),
            pos + 1 <= i <= slen,
            sp_comarr(s@.skip(pos as int)) == sp_comarr_items(s@.skip(pos as int + 1)),
            match sp_comarr_items(s@.skip(i as int)) {
                Option::Some(p) => sp_comarr_items(s@.skip(pos as int + 1)) == Option::Some(
                    (out.deep_view() + p.0, p.1),
                ),
                Option::None => sp_comarr_items(s@.skip(pos as int + 1)) is None,
            },
        decreases slen - i,
    {
        match p_comment(s, i) {
            Option::None => {
                return Option::None;
            },
            Option::Some((v, np)) => {
                proof {
                    lemma_sp_comment_shrinks(s@.skip(i as int));
                }
                if np >= slen {
                    proof {
                        assert(s@.skip(np as int).len() == 0);
                    }
                    return Option::None;
                }
                let c = s.get_char(np);
                proof {
                    assert(s@.skip(np as int)[0] == s@[np as int]);
                    assert(s@.skip(np as int).skip(1) =~= s@.skip(np as int + 1));
                }
                let ghost preout = out.deep_view();
                let ghost velem = v@;
                out.push(v);
                proof {
                    assert(out.deep_view() =~= preout.push(velem));
                }
                if c == ',' {
                    i = np + 1;
                    proof {
                        match sp_comarr_items(s@.skip(i as int)) {
                            Option::Some(p) => {
                                assert(preout + (seq![velem] + p.0) =~= out.deep_view() + p.0);
                            },
                            Option::None => {},
                        }
                    }
                } else if c == ']' {
                    proof {
                        assert(preout + seq![velem] =~= out.deep_view());
                    }
                    return Option::Some((out, np + 1));
                } else {
                    return Option::None;
                }
            },
        }
    }
}


/// A key literal followed by a string value.
pub open spec fn sp_field_str(s: Seq<char>, key: Seq<char>) -> Option<(Seq<char>, Seq<char>)> {
    match sp_lit(s, key) {
        Option::None => Option::None,
        Option::Some(r) => sp_jstr(r),
    }
}

/// A key literal followed by a signed 64-bit value.
pub open spec fn sp_field_i64(s: Seq<char>, key: Seq<char>) -> Option<(int, Seq<char>)> {
    match sp_lit(s, key) {
        Option::None => Option::None,
        Option::Some(r) => sp_i64(r),
    }
}

/// A key literal followed by a signed 32-bit value.
pub open spec fn sp_field_i32(s: Seq<char>, key: Seq<char>) -> Option<(int, Seq<char>)> {
    match sp_field_i64(s, key) {
        Option::None => Option::None,
        Option::Some((n, r)) => if i32::MIN <= n <= i32::MAX {
            Option::Some((n, r))
        } else {
            Option::None
        },
    }
}

/// A key literal followed by `null` or a string.
pub open spec fn sp_field_opt_str(s: Seq<char>, key: Seq<char>) -> Option<
    (Option<Seq<char>>, Seq<char>),
> {
    match sp_lit(s, key) {
        Option::None => Option::None,
        Option::Some(r) => sp_opt_str(r),
    }
}

/// A key literal followed by `null` or a 64-bit value.
pub open spec fn sp_field_opt_i64(s: Seq<char>, key: Seq<char>) -> Option<
    (Option<int>, Seq<char>),
> {
    match sp_lit(s, key) {
        Option::None => Option::None,
        Option::Some(r) => sp_opt_i64(r),
    }
}

/// A key literal followed by `null` or a 32-bit value.
pub open spec fn sp_field_opt_i32(s: Seq<char>, key: Seq<char>) -> Option<
    (Option<int>, Seq<char>),
> {
    match sp_field_opt_i64(s, key) {
        Option::None => Option::None,
        Option::Some((o, r)) => match o {
            Option::None => Option::Some((Option::None, r)),
            Option::Some(n) => if i32::MIN <= n <= i32::MAX {
                Option::Some((Option::Some(n), r))
            } else {
                Option::None
            },
        },
    }
}

/// A key literal followed by a boolean.
pub open spec fn sp_field_bool(s: Seq<char>, key: Seq<char>) -> Option<(bool, Seq<char>)> {
    match sp_lit(s, key) {
        Option::None => Option::None,
        Option::Some(r) => sp_bool(r),
    }
}

/// A key literal followed by a string array.
pub open spec fn sp_field_strarr(s: Seq<char>, key: Seq<char>) -> Option<
    (Seq<Seq<char>>, Seq<char>),
> {
    match sp_lit(s, key) {
        Option::None => Option::None,
        Option::Some(r) => sp_strarr(r),
    }
}

/// A key literal followed by a dependency array.
pub open spec fn sp_field_deparr(s: Seq<char>, key: Seq<char>) -> Option<
    (Seq<DepModel>, Seq<char>),
> {
    match sp_lit(s, key) {
        Option::None => Option::None,
        Option::Some(r) => sp_deparr(r),
    }
}

/// A key literal followed by a comment array.
pub open spec fn sp_field_comarr(s: Seq<char>, key: Seq<char>) -> Option<
    (Seq<CommentModel>, Seq<char>),
> {
    match sp_lit(s, key) {
        Option::None => Option::None,
        Option::Some(r) => sp_comarr(r),
    }
}

proof fn lemma_field_str_inv(key: Seq<char>, v: Seq<char>, rest: Seq<char>)
    ensures
        sp_field_str(key + (jstr(v) + rest), key) == Option::Some((v, rest)),
{
    lemma_sp_lit_inv(key, jstr(v) + rest);
    lemma_sp_jstr_inv(v, rest);
}

proof fn lemma_field_i64_inv(key: Seq<char>, n: i64, rest: Seq<char>)
    requires
        rest.len() == 0 || !is_digit(rest[0]),
    ensures
        sp_field_i64(key + (dec_int(n as int) + rest), key) == Option::Some((n as int, rest)),
{
    lemma_sp_lit_inv(key, dec_int(n as int) + rest);
    lemma_sp_i64_inv(n, rest);
}

proof fn lemma_field_i32_inv(key: Seq<char>, n: i32, rest: Seq<char>)
    requires
        rest.len() == 0 || !is_digit(rest[0]),
    ensures
        sp_field_i32(key + (dec_int(n as int) + rest), key) == Option::Some((n as int, rest)),
{
    assert(dec_int((n as i64) as int) == dec_int(n as int));
    lemma_field_i64_inv(key, n as i64, rest);
}

proof fn lemma_field_opt_str_inv(key: Seq<char>, o: Option<Seq<char>>, rest: Seq<char>)
    ensures
        sp_field_opt_str(key + (render_opt_str(o) + rest), key) == Option::Some((o, rest)),
{
    lemma_sp_lit_inv(key, render_opt_str(o) + rest);
    lemma_sp_opt_str_inv(o, rest);
}

proof fn lemma_field_opt_i64_inv(key: Seq<char>, o: Option<i64>, rest: Seq<char>)
    requires
        rest.len() == 0 || !is_digit(rest[0]),
    ensures
        sp_field_opt_i64(key + (render_opt_int(opt_i64_view(o)) + rest), key) == Option::Some(
            (opt_i64_view(o), rest),
        ),
{
    lemma_sp_lit_inv(key, render_opt_int(opt_i64_view(o)) + rest);
    lemma_sp_opt_i64_inv(o, rest);
}

proof fn lemma_field_opt_i32_inv(key: Seq<char>, o: Option<i32>, rest: Seq<char>)
    requires
        rest.len() == 0 || !is_digit(rest[0]),
    ensures
        sp_field_opt_i32(key + (render_opt_int(opt_i32_view(o)) + rest), key) == Option::Some(
            (opt_i32_view(o), rest),
        ),
{
    let o64 = match o {
        Option::None => Option::<i64>::None,
        Option::Some(x) => Option::Some(x as i64),
    };
    assert(opt_i64_view(o64) == opt_i32_view(o));
    lemma_field_opt_i64_inv(key, o64, rest);
}

proof fn lemma_field_bool_inv(key: Seq<char>, b: bool, rest: Seq<char>)
    ensures
        sp_field_bool(key + (render_bool(b) + rest), key) == Option::Some((b, rest)),
{
    lemma_sp_lit_inv(key, render_bool(b) + rest);
    lemma_sp_bool_inv(b, rest);
}

proof fn lemma_field_strarr_inv(key: Seq<char>, vs: Seq<Seq<char>>, rest: Seq<char>)
    ensures
        sp_field_strarr(key + (render_strarr(vs) + rest), key) == Option::Some((vs, rest)),
{
    lemma_sp_lit_inv(key, render_strarr(vs) + rest);
    lemma_sp_strarr_inv(vs, rest);
}

proof fn lemma_field_deparr_inv(key: Seq<char>, vs: Seq<DepModel>, rest: Seq<char>)
    requires
        forall|k: int| 0 <= k < vs.len() ==> wf_dep(#[trigger] vs[k]),
    ensures
        sp_field_deparr(key + (render_deparr(vs) + rest), key) == Option::Some((vs, rest)),
{
    lemma_sp_lit_inv(key, render_deparr(vs) + rest);
    lemma_sp_deparr_inv(vs, rest);
}

proof fn lemma_field_comarr_inv(key: Seq<char>, vs: Seq<CommentModel>, rest: Seq<char>)
    requires
        forall|k: int| 0 <= k < vs.len() ==> wf_comment(#[trigger] vs[k]),
    ensures
        sp_field_comarr(key + (render_comarr(vs) + rest), key) == Option::Some((vs, rest)),
{
    lemma_sp_lit_inv(key, render_comarr(vs) + rest);
    lemma_sp_comarr_inv(vs, rest);
}

/// An issue model with its content hash cleared: what the codec restores,
/// since the hash is never written to the log.
pub open spec fn strip_hash(m: IssueModel) -> IssueModel {
    IssueModel { content_hash: Seq::<char>::empty(), ..m }
}

#[verifier::opaque]
pub open spec fn render_issue_q1(m: IssueModel) -> Seq<char> {
    "{\"id\":"@ + jstr(m.id) + ",\"title\":"@ + jstr(m.title) + ",\"description\":"@ + jstr(m.description) + ",\"design\":"@ + jstr(m.design) + ",\"acceptance_criteria\":"@ + jstr(m.acceptance_criteria) + ",\"notes\":"@ + jstr(m.notes) + ",\"status\":"@ + jstr(m.status)
}

#[verifier::opaque]
pub open spec fn render_issue_q2(m: IssueModel) -> Seq<char> {
    ",\"priority\":"@ + dec_int(m.priority) + ",\"issue_type\":"@ + jstr(m.issue_type) + ",\"assignee\":"@ + render_opt_str(m.assignee) + ",\"estimated_minutes\":"@ + render_opt_int(m.estimated_minutes) + ",\"created_at\":"@ + dec_int(m.created_at) + ",\"updated_at\":"@ + dec_int(m.updated_at) + ",\"closed_at\":"@ + render_opt_int(m.closed_at)
}

#[verifier::opaque]
pub open spec fn render_issue_q3(m: IssueModel) -> Seq<char> {
    ",\"external_ref\":"@ + render_opt_str(m.external_ref) + ",\"sender\":"@ + jstr(m.sender) + ",\"ephemeral\":"@ + render_bool(m.ephemeral) + ",\"replies_to\":"@ + jstr(m.replies_to) + ",\"relates_to\":"@ + render_strarr(m.relates_to) + ",\"duplicate_of\":"@ + jstr(m.duplicate_of) + ",\"superseded_by\":"@ + jstr(m.superseded_by)
}

#[verifier::opaque]
pub open spec fn render_issue_q4(m: IssueModel) -> Seq<char> {
    ",\"deleted_at\":"@ + render_opt_int(m.deleted_at) + ",\"deleted_by\":"@ + jstr(m.deleted_by) + ",\"delete_reason\":"@ + jstr(m.delete_reason) + ",\"original_type\":"@ + jstr(m.original_type) + ",\"labels\":"@ + render_strarr(m.labels) + ",\"dependencies\":"@ + render_deparr(m.dependencies) + ",\"comments\":"@ + render_comarr(m.comments) + "}"@
}

/// Rendering of one issue record as a single JSON object: every field
/// present, in a fixed order; the content hash is not part of the log.
#[verifier::opaque]
pub open spec fn render_issue(m: IssueModel) -> Seq<char> {
    render_issue_q1(m) + render_issue_q2(m) + render_issue_q3(m) + render_issue_q4(m)
}

#[verifier::opaque]
pub open spec fn sp_issue_q1(s: Seq<char>) -> Option<((Seq<char>, Seq<char>, Seq<char>, Seq<char>, Seq<char>, Seq<char>, Seq<char>), Seq<char>)> {
    match sp_field_str(s, "{\"id\":"@) {
        Option::None => Option::None,
        Option::Some((v_id, s_0)) => 
        match sp_field_str(s_0, ",\"title\":"@) {
            Option::None => Option::None,
            Option::Some((v_title, s_1)) => 
            match sp_field_str(s_1, ",\"description\":"@) {
                Option::None => Option::None,
                Option::Some((v_description, s_2)) => 
                match sp_field_str(s_2, ",\"design\":"@) {
                    Option::None => Option::None,
                    Option::Some((v_design, s_3)) => 
                    match sp_field_str(s_3, ",\"acceptance_criteria\":"@) {
                        Option::None => Option::None,
                        Option::Some((v_acceptance_criteria, s_4)) => 
                        match sp_field_str(s_4, ",\"notes\":"@) {
                            Option::None => Option::None,
                            Option::Some((v_notes, s_5)) => 
                            match sp_field_str(s_5, ",\"status\":"@) {
                                Option::None => Option::None,
                                Option::Some((v_status, s_6)) => 
                                Option::Some(((v_id, v_title, v_description, v_design, v_acceptance_criteria, v_notes, v_status), s_6))
                            }
                        }
                    }
                }
            }
        }
    }
}

#[verifier::opaque]
pub open spec fn sp_issue_q2(s: Seq<char>) -> Option<((int, Seq<char>, Option<Seq<char>>, Option<int>, int, int, Option<int>), Seq<char>)> {
    match sp_field_i32(s, ",\"priority\":"@) {
        Option::None => Option::None,
        Option::Some((v_priority, s_7)) => 
        match sp_field_str(s_7, ",\"issue_type\":"@) {
            Option::None => Option::None,
            Option::Some((v_issue_type, s_8)) => 
            match sp_field_opt_str(s_8, ",\"assignee\":"@) {
                Option::None => Option::None,
                Option::Some((v_assignee, s_9)) => 
                match sp_field_opt_i32(s_9, ",\"estimated_minutes\":"@) {
                    Option::None => Option::None,
                    Option::Some((v_estimated_minutes, s_10)) => 
                    match sp_field_i64(s_10, ",\"created_at\":"@) {
                        Option::None => Option::None,
                        Option::Some((v_created_at, s_11)) => 
                        match sp_field_i64(s_11, ",\"updated_at\":"@) {
                            Option::None => Option::None,
                            Option::Some((v_updated_at, s_12)) => 
                            match sp_field_opt_i64(s_12, ",\"closed_at\":"@) {
                                Option::None => Option::None,
                                Option::Some((v_closed_at, s_13)) => 
                                Option::Some(((v_priority, v_issue_type, v_assignee, v_estimated_minutes, v_created_at, v_updated_at, v_closed_at), s_13))
                            }
                        }
                    }
                }
            }
        }
    }
}

#[verifier::opaque]
pub open spec fn sp_issue_q3(s: Seq<char>) -> Option<((Option<Seq<char>>, Seq<char>, bool, Seq<char>, Seq<Seq<char>>, Seq<char>, Seq<char>), Seq<char>)> {
    match sp_field_opt_str(s, ",\"external_ref\":"@) {
        Option::None => Option::None,
        Option::Some((v_external_ref, s_14)) => 
        match sp_field_str(s_14, ",\"sender\":"@) {
            Option::None => Option::None,
            Option::Some((v_sender, s_15)) => 
            match sp_field_bool(s_15, ",\"ephemeral\":"@) {
                Option::None => Option::None,
                Option::Some((v_ephemeral, s_16)) => 
                match sp_field_str(s_16, ",\"replies_to\":"@) {
                    Option::None => Option::None,
                    Option::Some((v_replies_to, s_17)) => 
                    match sp_field_strarr(s_17, ",\"relates_to\":"@) {
                        Option::None => Option::None,
                        Option::Some((v_relates_to, s_18)) => 
                        match sp_field_str(s_18, ",\"duplicate_of\":"@) {
                            Option::None => Option::None,
                            Option::Some((v_duplicate_of, s_19)) => 
                            match sp_field_str(s_19, ",\"superseded_by\":"@) {
                                Option::None => Option::None,
                                Option::Some((v_superseded_by, s_20)) => 
                                Option::Some(((v_external_ref, v_sender, v_ephemeral, v_replies_to, v_relates_to, v_duplicate_of, v_superseded_by), s_20))
                            }
                        }
                    }
                }
            }
        }
    }
}

#[verifier::opaque]
pub open spec fn sp_issue_q4(s: Seq<char>) -> Option<((Option<int>, Seq<char>, Seq<char>, Seq<char>, Seq<Seq<char>>, Seq<DepModel>, Seq<CommentModel>), Seq<char>)> {
    match sp_field_opt_i64(s, ",\"deleted_at\":"@) {
        Option::None => Option::None,
        Option::Some((v_deleted_at, s_21)) => 
        match sp_field_str(s_21, ",\"deleted_by\":"@) {
            Option::None => Option::None,
            Option::Some((v_deleted_by, s_22)) => 
            match sp_field_str(s_22, ",\"delete_reason\":"@) {
                Option::None => Option::None,
                Option::Some((v_delete_reason, s_23)) => 
                match sp_field_str(s_23, ",\"original_type\":"@) {
                    Option::None => Option::None,
                    Option::Some((v_original_type, s_24)) => 
                    match sp_field_strarr(s_24, ",\"labels\":"@) {
                        Option::None => Option::None,
                        Option::Some((v_labels, s_25)) => 
                        match sp_field_deparr(s_25, ",\"dependencies\":"@) {
                            Option::None => Option::None,
                            Option::Some((v_dependencies, s_26)) => 
                            match sp_field_comarr(s_26, ",\"comments\":"@) {
                                Option::None => Option::None,
                                Option::Some((v_comments, s_27)) => 
                                match sp_lit(s_27, "}"@) {
                                    Option::None => Option::None,
                                    Option::Some(r) => Option::Some(((v_deleted_at, v_deleted_by, v_delete_reason, v_original_type, v_labels, v_dependencies, v_comments), r)),
                                }
                            }
                        }
                    }
                }
            }
        }
    }
}

/// Parses one issue record, exactly the rendering read back.
#[verifier::opaque]
pub open spec fn sp_issue(s: Seq<char>) -> Option<(IssueModel, Seq<char>)> {
    match sp_issue_q1(s) {
        Option::None => Option::None,
        Option::Some((q1, s1)) => match sp_issue_q2(s1) {
            Option::None => Option::None,
            Option::Some((q2, s2)) => match sp_issue_q3(s2) {
                Option::None => Option::None,
                Option::Some((q3, s3)) => match sp_issue_q4(s3) {
                    Option::None => Option::None,
                    Option::Some((q4, r)) => Option::Some(
                        (
                            IssueModel {
                                id: q1.0,
                                title: q1.1,
                                description: q1.2,
                                design: q1.3,
                                acceptance_criteria: q1.4,
                                notes: q1.5,
                                status: q1.6,
                                priority: q2.0,
                                issue_type: q2.1,
                                assignee: q2.2,
                                estimated_minutes: q2.3,
                                created_at: q2.4,
                                updated_at: q2.5,
                                closed_at: q2.6,
                                external_ref: q3.0,
                                sender: q3.1,
                                ephemeral: q3.2,
                                replies_to: q3.3,
                                relates_to: q3.4,
                                duplicate_of: q3.5,
                                superseded_by: q3.6,
                                deleted_at: q4.0,
                                deleted_by: q4.1,
                                delete_reason: q4.2,
                                original_type: q4.3,
                                labels: q4.4,
                                dependencies: q4.5,
                                comments: q4.6,
                                content_hash: Seq::<char>::empty(),
                            },
                            r,
                        ),
                    ),
                },
            },
        },
    }
}

#[verifier::rlimit(100)]
#[verifier::spinoff_prover]
proof fn lemma_render_q1_chain(m: IssueModel, tail: Seq<char>)
    ensures
        render_issue_q1(m) + tail == "{\"id\":"@ + (jstr(m.id) + (",\"title\":"@ + (jstr(m.title) + (",\"description\":"@ + (jstr(m.description) + (",\"design\":"@ + (jstr(m.design) + (",\"acceptance_criteria\":"@ + (jstr(m.acceptance_criteria) + (",\"notes\":"@ + (jstr(m.notes) + (",\"status\":"@ + (jstr(m.status) + (tail)))))))))))))),
{
    reveal(render_issue_q1);
    assert(render_issue_q1(m) + tail =~= "{\"id\":"@ + (jstr(m.id) + (",\"title\":"@ + (jstr(m.title) + (",\"description\":"@ + (jstr(m.description) + (",\"design\":"@ + (jstr(m.design) + (",\"acceptance_criteria\":"@ + (jstr(m.acceptance_criteria) + (",\"notes\":"@ + (jstr(m.notes) + (",\"status\":"@ + (jstr(m.status) + (tail)))))))))))))));
}

#[verifier::spinoff_prover]
proof fn lemma_sp_issue_q1_inv(m: IssueModel, tail: Seq<char>)
    requires
        wf_issue(m),
    ensures
        sp_issue_q1(render_issue_q1(m) + tail) == Option::Some(((m.id, m.title, m.description, m.design, m.acceptance_criteria, m.notes, m.status), tail)),
{
    reveal(sp_issue_q1);
    let t7 = tail;
    let t6 = ",\"status\":"@ + (jstr(m.status) + t7);
    let t5 = ",\"notes\":"@ + (jstr(m.notes) + t6);
    let t4 = ",\"acceptance_criteria\":"@ + (jstr(m.acceptance_criteria) + t5);
    let t3 = ",\"design\":"@ + (jstr(m.design) + t4);
    let t2 = ",\"description\":"@ + (jstr(m.description) + t3);
    let t1 = ",\"title\":"@ + (jstr(m.title) + t2);
    let t0 = "{\"id\":"@ + (jstr(m.id) + t1);
    lemma_render_q1_chain(m, tail);
    assert(render_issue_q1(m) + tail == t0);
    assert(!is_digit(','));
    lemma_field_str_inv("{\"id\":"@, m.id, t1);
    lemma_field_str_inv(",\"title\":"@, m.title, t2);
    lemma_field_str_inv(",\"description\":"@, m.description, t3);
    lemma_field_str_inv(",\"design\":"@, m.design, t4);
    lemma_field_str_inv(",\"acceptance_criteria\":"@, m.acceptance_criteria, t5);
    lemma_field_str_inv(",\"notes\":"@, m.notes, t6);
    lemma_field_str_inv(",\"status\":"@, m.status, t7);
}

#[verifier::rlimit(100)]
#[verifier::spinoff_prover]
proof fn lemma_render_q2_chain(m: IssueModel, tail: Seq<char>)
    ensures
        render_issue_q2(m) + tail == ",\"priority\":"@ + (dec_int(m.priority) + (",\"issue_type\":"@ + (jstr(m.issue_type) + (",\"assignee\":"@ + (render_opt_str(m.assignee) + (",\"estimated_minutes\":"@ + (render_opt_int(m.estimated_minutes) + (",\"created_at\":"@ + (dec_int(m.created_at) + (",\"updated_at\":"@ + (dec_int(m.updated_at) + (",\"closed_at\":"@ + (render_opt_int(m.closed_at) + (tail)))))))))))))),
{
    reveal(render_issue_q2);
    assert(render_issue_q2(m) + tail =~= ",\"priority\":"@ + (dec_int(m.priority) + (",\"issue_type\":"@ + (jstr(m.issue_type) + (",\"assignee\":"@ + (render_opt_str(m.assignee) + (",\"estimated_minutes\":"@ + (render_opt_int(m.estimated_minutes) + (",\"created_at\":"@ + (dec_int(m.created_at) + (",\"updated_at\":"@ + (dec_int(m.updated_at) + (",\"closed_at\":"@ + (render_opt_int(m.closed_at) + (tail)))))))))))))));
}

#[verifier::spinoff_prover]
proof fn lemma_sp_issue_q2_inv(m: IssueModel, tail: Seq<char>)
    requires
        wf_issue(m),
        tail.len() > 0 && !is_digit(tail[0]),
    ensures
        sp_issue_q2(render_issue_q2(m) + tail) == Option::Some(((m.priority, m.issue_type, m.assignee, m.estimated_minutes, m.created_at, m.updated_at, m.closed_at), tail)),
{
    reveal(sp_issue_q2);
    let t14 = tail;
    let t13 = ",\"closed_at\":"@ + (render_opt_int(m.closed_at) + t14);
    let t12 = ",\"updated_at\":"@ + (dec_int(m.updated_at) + t13);
    let t11 = ",\"created_at\":"@ + (dec_int(m.created_at) + t12);
    let t10 = ",\"estimated_minutes\":"@ + (render_opt_int(m.estimated_minutes) + t11);
    let t9 = ",\"assignee\":"@ + (render_opt_str(m.assignee) + t10);
    let t8 = ",\"issue_type\":"@ + (jstr(m.issue_type) + t9);
    let t7 = ",\"priority\":"@ + (dec_int(m.priority) + t8);
    lemma_render_q2_chain(m, tail);
    assert(render_issue_q2(m) + tail == t7);
    reveal_strlit(",\"issue_type\":");
    assert(t8[0] == ',');
    reveal_strlit(",\"created_at\":");
    assert(t11[0] == ',');
    reveal_strlit(",\"updated_at\":");
    assert(t12[0] == ',');
    reveal_strlit(",\"closed_at\":");
    assert(t13[0] == ',');
    assert(!is_digit(','));
    assert(dec_int((m.priority as i32) as int) == dec_int(m.priority));
    lemma_field_i32_inv(",\"priority\":"@, m.priority as i32, t8);
    lemma_field_str_inv(",\"issue_type\":"@, m.issue_type, t9);
    lemma_field_opt_str_inv(",\"assignee\":"@, m.assignee, t10);
    let o_estimated_minutes = match m.estimated_minutes {
        Option::None => Option::<i32>::None,
        Option::Some(x) => Option::Some(x as i32),
    };
    assert(opt_i32_view(o_estimated_minutes) == m.estimated_minutes);
    lemma_field_opt_i32_inv(",\"estimated_minutes\":"@, o_estimated_minutes, t11);
    assert(dec_int((m.created_at as i64) as int) == dec_int(m.created_at));
    lemma_field_i64_inv(",\"created_at\":"@, m.created_at as i64, t12);
    assert(dec_int((m.updated_at as i64) as int) == dec_int(m.updated_at));
    lemma_field_i64_inv(",\"updated_at\":"@, m.updated_at as i64, t13);
    let o_closed_at = match m.closed_at {
        Option::None => Option::<i64>::None,
        Option::Some(x) => Option::Some(x as i64),
    };
    assert(opt_i64_view(o_closed_at) == m.closed_at);
    lemma_field_opt_i64_inv(",\"closed_at\":"@, o_closed_at, t14);
}

#[verifier::rlimit(100)]
#[verifier::spinoff_prover]
proof fn lemma_render_q3_chain(m: IssueModel, tail: Seq<char>)
    ensures
        render_issue_q3(m) + tail == ",\"external_ref\":"@ + (render_opt_str(m.external_ref) + (",\"sender\":"@ + (jstr(m.sender) + (",\"ephemeral\":"@ + (render_bool(m.ephemeral) + (",\"replies_to\":"@ + (jstr(m.replies_to) + (",\"relates_to\":"@ + (render_strarr(m.relates_to) + (",\"duplicate_of\":"@ + (jstr(m.duplicate_of) + (",\"superseded_by\":"@ + (jstr(m.superseded_by) + (tail)))))))))))))),
{
    reveal(render_issue_q3);
    assert(render_issue_q3(m) + tail =~= ",\"external_ref\":"@ + (render_opt_str(m.external_ref) + (",\"sender\":"@ + (jstr(m.sender) + (",\"ephemeral\":"@ + (render_bool(m.ephemeral) + (",\"replies_to\":"@ + (jstr(m.replies_to) + (",\"relates_to\":"@ + (render_strarr(m.relates_to) + (",\"duplicate_of\":"@ + (jstr(m.duplicate_of) + (",\"superseded_by\":"@ + (jstr(m.superseded_by) + (tail)))))))))))))));
}

#[verifier::spinoff_prover]
proof fn lemma_sp_issue_q3_inv(m: IssueModel, tail: Seq<char>)
    requires
        wf_issue(m),
    ensures
        sp_issue_q3(render_issue_q3(m) + tail) == Option::Some(((m.external_ref, m.sender, m.ephemeral, m.replies_to, m.relates_to, m.duplicate_of, m.superseded_by), tail)),
{
    reveal(sp_issue_q3);
    let t21 = tail;
    let t20 = ",\"superseded_by\":"@ + (jstr(m.superseded_by) + t21);
    let t19 = ",\"duplicate_of\":"@ + (jstr(m.duplicate_of) + t20);
    let t18 = ",\"relates_to\":"@ + (render_strarr(m.relates_to) + t19);
    let t17 = ",\"replies_to\":"@ + (jstr(m.replies_to) + t18);
    let t16 = ",\"ephemeral\":"@ + (render_bool(m.ephemeral) + t17);
    let t15 = ",\"sender\":"@ + (jstr(m.sender) + t16);
    let t14 = ",\"external_ref\":"@ + (render_opt_str(m.external_ref) + t15);
    lemma_render_q3_chain(m, tail);
    assert(render_issue_q3(m) + tail == t14);
    assert(!is_digit(','));
    lemma_field_opt_str_inv(",\"external_ref\":"@, m.external_ref, t15);
    lemma_field_str_inv(",\"sender\":"@, m.sender, t16);
    lemma_field_bool_inv(",\"ephemeral\":"@, m.ephemeral, t17);
    lemma_field_str_inv(",\"replies_to\":"@, m.replies_to, t18);
    lemma_field_strarr_inv(",\"relates_to\":"@, m.relates_to, t19);
    lemma_field_str_inv(",\"duplicate_of\":"@, m.duplicate_of, t20);
    lemma_field_str_inv(",\"superseded_by\":"@, m.superseded_by, t21);
}

#[verifier::rlimit(100)]
#[verifier::spinoff_prover]
proof fn lemma_render_q4_chain(m: IssueModel, tail: Seq<char>)
    ensures
        render_issue_q4(m) + tail == ",\"deleted_at\":"@ + (render_opt_int(m.deleted_at) + (",\"deleted_by\":"@ + (jstr(m.deleted_by) + (",\"delete_reason\":"@ + (jstr(m.delete_reason) + (",\"original_type\":"@ + (jstr(m.original_type) + (",\"labels\":"@ + (render_strarr(m.labels) + (",\"dependencies\":"@ + (render_deparr(m.dependencies) + (",\"comments\":"@ + (render_comarr(m.comments) + ("}"@ + tail)))))))))))))),
{
    reveal(render_issue_q4);
    assert(render_issue_q4(m) + tail =~= ",\"deleted_at\":"@ + (render_opt_int(m.deleted_at) + (",\"deleted_by\":"@ + (jstr(m.deleted_by) + (",\"delete_reason\":"@ + (jstr(m.delete_reason) + (",\"original_type\":"@ + (jstr(m.original_type) + (",\"labels\":"@ + (render_strarr(m.labels) + (",\"dependencies\":"@ + (render_deparr(m.dependencies) + (",\"comments\":"@ + (render_comarr(m.comments) + ("}"@ + tail)))))))))))))));
}

#[verifier::spinoff_prover]
proof fn lemma_sp_issue_q4_steps(
    s: Seq<char>,
    v_deleted_at: Option<int>,
    v_deleted_by: Seq<char>,
    v_delete_reason: Seq<char>,
    v_original_type: Seq<char>,
    v_labels: Seq<Seq<char>>,
    v_dependencies: Seq<DepModel>,
    v_comments: Seq<CommentModel>,
    t22: Seq<char>,
    t23: Seq<char>,
    t24: Seq<char>,
    t25: Seq<char>,
    t26: Seq<char>,
    t27: Seq<char>,
    t28: Seq<char>,
    rest: Seq<char>,
)
    requires
        sp_field_opt_i64(s, ",\"deleted_at\":"@) == Option::Some((v_deleted_at, t22)),
        sp_field_str(t22, ",\"deleted_by\":"@) == Option::Some((v_deleted_by, t23)),
        sp_field_str(t23, ",\"delete_reason\":"@) == Option::Some((v_delete_reason, t24)),
        sp_field_str(t24, ",\"original_type\":"@) == Option::Some((v_original_type, t25)),
        sp_field_strarr(t25, ",\"labels\":"@) == Option::Some((v_labels, t26)),
        sp_field_deparr(t26, ",\"dependencies\":"@) == Option::Some((v_dependencies, t27)),
        sp_field_comarr(t27, ",\"comments\":"@) == Option::Some((v_comments, t28)),
        sp_lit(t28, "}"@) == Option::Some(rest),
    ensures
        sp_issue_q4(s) == Option::Some(((v_deleted_at, v_deleted_by, v_delete_reason, v_original_type, v_labels, v_dependencies, v_comments), rest)),
{
    reveal(sp_issue_q4);
}

#[verifier::rlimit(100)]
#[verifier::spinoff_prover]
proof fn lemma_sp_issue_q4_inv(m: IssueModel, tail: Seq<char>)
    requires
        wf_issue(m),
    ensures
        sp_issue_q4(render_issue_q4(m) + tail) == Option::Some(((m.deleted_at, m.deleted_by, m.delete_reason, m.original_type, m.labels, m.dependencies, m.comments), tail)),
{
    let t28 = "}"@ + tail;
    let t27 = ",\"comments\":"@ + (render_comarr(m.comments) + t28);
    let t26 = ",\"dependencies\":"@ + (render_deparr(m.dependencies) + t27);
    let t25 = ",\"labels\":"@ + (render_strarr(m.labels) + t26);
    let t24 = ",\"original_type\":"@ + (jstr(m.original_type) + t25);
    let t23 = ",\"delete_reason\":"@ + (jstr(m.delete_reason) + t24);
    let t22 = ",\"deleted_by\":"@ + (jstr(m.deleted_by) + t23);
    let t21 = ",\"deleted_at\":"@ + (render_opt_int(m.deleted_at) + t22);
    lemma_render_q4_chain(m, tail);
    assert(render_issue_q4(m) + tail == t21);
    reveal_strlit(",\"deleted_by\":");
    assert(t22[0] == ',');
    assert(!is_digit(','));
    let o_deleted_at = match m.deleted_at {
        Option::None => Option::<i64>::None,
        Option::Some(x) => Option::Some(x as i64),
    };
    assert(opt_i64_view(o_deleted_at) == m.deleted_at);
    lemma_field_opt_i64_inv(",\"deleted_at\":"@, o_deleted_at, t22);
    lemma_field_str_inv(",\"deleted_by\":"@, m.deleted_by, t23);
    lemma_field_str_inv(",\"delete_reason\":"@, m.delete_reason, t24);
    lemma_field_str_inv(",\"original_type\":"@, m.original_type, t25);
    lemma_field_strarr_inv(",\"labels\":"@, m.labels, t26);
    lemma_field_deparr_inv(",\"dependencies\":"@, m.dependencies, t27);
    lemma_field_comarr_inv(",\"comments\":"@, m.comments, t28);
    lemma_sp_lit_inv("}"@, tail);
    lemma_sp_issue_q4_steps(
        t21,
        m.deleted_at,
        m.deleted_by,
        m.delete_reason,
        m.original_type,
        m.labels,
        m.dependencies,
        m.comments,
        t22,
        t23,
        t24,
        t25,
        t26,
        t27,
        t28,
        tail,
    );
}

/// Parsing an issue line inverts rendering it; the content hash comes back
/// empty because it is not part of the log.
#[verifier::rlimit(100)]
#[verifier::spinoff_prover]
pub proof fn lemma_sp_issue_inv(m: IssueModel, rest: Seq<char>)
    requires
        wf_issue(m),
    ensures
        sp_issue(render_issue(m) + rest) == Option::Some((strip_hash(m), rest)),
{
    reveal(render_issue);
    reveal(render_issue_q3);
    reveal(sp_issue);
    let s = render_issue(m) + rest;
    let t3 = render_issue_q4(m) + rest;
    let t2 = render_issue_q3(m) + t3;
    let t1 = render_issue_q2(m) + t2;
    assert(s =~= render_issue_q1(m) + t1);
    reveal_strlit(",\"external_ref\":");
    assert(t2[0] == ',') by {
        assert(t2[0] == ",\"external_ref\":"@[0]);
    }
    assert(!is_digit(','));
    lemma_sp_issue_q1_inv(m, t1);
    lemma_sp_issue_q2_inv(m, t2);
    lemma_sp_issue_q3_inv(m, t3);
    lemma_sp_issue_q4_inv(m, rest);
}


/// Appends `null` or a 32-bit number.
pub fn push_opt_i32(out: &mut String, o: &Option<i32>)
    ensures
        final(out)@ == old(out)@ + render_opt_int(opt_i32_view(*o)),
{
    match o {
        Option::None => {
            out.append("null");
        },
        Option::Some(v) => {
            push_dec_i64(out, *v as i64);
            proof {
                assert(dec_int(((*v as i64) as int)) == dec_int(*v as int));
            }
        },
    }
}

fn p_field_str(s: &str, pos: usize, key: &str) -> (r: Option<(String, usize)>)
    requires
        pos <= s@.len(),
    ensures
        r is Some <==> sp_field_str(s@.skip(pos as int), key@) is Some,
        r matches Option::Some(p) ==> pos <= p.1 <= s@.len() && sp_field_str(
            s@.skip(pos as int),
            key@,
        ) == Option::Some((p.0@, s@.skip(p.1 as int))),
{
    match p_lit(s, pos, key) {
        Option::None => Option::None,
        Option::Some(np) => p_jstr(s, np),
    }
}

fn p_field_i64(s: &str, pos: usize, key: &str) -> (r: Option<(i64, usize)>)
    requires
        pos <= s@.len(),
    ensures
        r is Some <==> sp_field_i64(s@.skip(pos as int), key@) is Some,
        r matches Option::Some(p) ==> pos <= p.1 <= s@.len() && sp_field_i64(
            s@.skip(pos as int),
            key@,
        ) == Option::Some((p.0 as int, s@.skip(p.1 as int))),
{
    match p_lit(s, pos, key) {
        Option::None => Option::None,
        Option::Some(np) => p_i64(s, np),
    }
}

fn p_field_i32(s: &str, pos: usize, key: &str) -> (r: Option<(i32, usize)>)
    requires
        pos <= s@.len(),
    ensures
        r is Some <==> sp_field_i32(s@.skip(pos as int), key@) is Some,
        r matches Option::Some(p) ==> pos <= p.1 <= s@.len() && sp_field_i32(
            s@.skip(pos as int),
            key@,
        ) == Option::Some((p.0 as int, s@.skip(p.1 as int))),
{
    match p_field_i64(s, pos, key) {
        Option::None => Option::None,
        Option::Some((n, np)) => {
            if n < -2147483648i64 || n > 2147483647i64 {
                Option::None
            } else {
                Option::Some((n as i32, np))
            }
        },
    }
}

fn p_field_opt_str(s: &str, pos: usize, key: &str) -> (r: Option<(Option<String>, usize)>)
    requires
        pos <= s@.len(),
    ensures
        r is Some <==> sp_field_opt_str(s@.skip(pos as int), key@) is Some,
        r matches Option::Some(p) ==> pos <= p.1 <= s@.len() && sp_field_opt_str(
            s@.skip(pos as int),
            key@,
        ) == Option::Some((opt_str_view(p.0), s@.skip(p.1 as int))),
{
    match p_lit(s, pos, key) {
        Option::None => Option::None,
        Option::Some(np) => p_opt_str(s, np),
    }
}

fn p_field_opt_i64(s: &str, pos: usize, key: &str) -> (r: Option<(Option<i64>, usize)>)
    requires
        pos <= s@.len(),
    ensures
        r is Some <==> sp_field_opt_i64(s@.skip(pos as int), key@) is Some,
        r matches Option::Some(p) ==> pos <= p.1 <= s@.len() && sp_field_opt_i64(
            s@.skip(pos as int),
            key@,
        ) == Option::Some((opt_i64_view(p.0), s@.skip(p.1 as int))),
{
    match p_lit(s, pos, key) {
        Option::None => Option::None,
        Option::Some(np) => p_opt_i64(s, np),
    }
}

fn p_field_opt_i32(s: &str, pos: usize, key: &str) -> (r: Option<(Option<i32>, usize)>)
    requires
        pos <= s@.len(),
    ensures
        r is Some <==> sp_field_opt_i32(s@.skip(pos as int), key@) is Some,
        r matches Option::Some(p) ==> pos <= p.1 <= s@.len() && sp_field_opt_i32(
            s@.skip(pos as int),
            key@,
        ) == Option::Some((opt_i32_view(p.0), s@.skip(p.1 as int))),
{
    match p_field_opt_i64(s, pos, key) {
        Option::None => Option::None,
        Option::Some((o, np)) => {
            match o {
                Option::None => Option::Some((Option::None, np)),
                Option::Some(n) => {
                    if n < -2147483648i64 || n > 2147483647i64 {
                        Option::None
                    } else {
                        Option::Some((Option::Some(n as i32), np))
                    }
                },
            }
        },
    }
}

fn p_field_bool(s: &str, pos: usize, key: &str) -> (r: Option<(bool, usize)>)
    requires
        pos <= s@.len(),
    ensures
        r is Some <==> sp_field_bool(s@.skip(pos as int), key@) is Some,
        r matches Option::Some(p) ==> pos <= p.1 <= s@.len() && sp_field_bool(
            s@.skip(pos as int),
            key@,
        ) == Option::Some((p.0, s@.skip(p.1 as int))),
{
    match p_lit(s, pos, key) {
        Option::None => Option::None,
        Option::Some(np) => p_bool(s, np),
    }
}

fn p_field_strarr(s: &str, pos: usize, key: &str) -> (r: Option<(Vec<String>, usize)>)
    requires
        pos <= s@.len(),
    ensures
        r is Some <==> sp_field_strarr(s@.skip(pos as int), key@) is Some,
        r matches Option::Some(p) ==> pos <= p.1 <= s@.len() && sp_field_strarr(
            s@.skip(pos as int),
            key@,
        ) == Option::Some((p.0.deep_view(), s@.skip(p.1 as int))),
{
    match p_lit(s, pos, key) {
        Option::None => Option::None,
        Option::Some(np) => p_strarr(s, np),
    }
}

fn p_field_deparr(s: &str, pos: usize, key: &str) -> (r: Option<(Vec<Dependency>, usize)>)
    requires
        pos <= s@.len(),
    ensures
        r is Some <==> sp_field_deparr(s@.skip(pos as int), key@) is Some,
        r matches Option::Some(p) ==> pos <= p.1 <= s@.len() && sp_field_deparr(
            s@.skip(pos as int),
            key@,
        ) == Option::Some((p.0.deep_view(), s@.skip(p.1 as int))),
{
    match p_lit(s, pos, key) {
        Option::None => Option::None,
        Option::Some(np) => p_deparr(s, np),
    }
}

fn p_field_comarr(s: &str, pos: usize, key: &str) -> (r: Option<(Vec<Comment>, usize)>)
    requires
        pos <= s@.len(),
    ensures
        r is Some <==> sp_field_comarr(s@.skip(pos as int), key@) is Some,
        r matches Option::Some(p) ==> pos <= p.1 <= s@.len() && sp_field_comarr(
            s@.skip(pos as int),
            key@,
        ) == Option::Some((p.0.deep_view(), s@.skip(p.1 as int))),
{
    match p_lit(s, pos, key) {
        Option::None => Option::None,
        Option::Some(np) => p_comarr(s, np),
    }
}


#[verifier::rlimit(100)]
#[verifier::spinoff_prover]
fn push_issue_q1(out: &mut String, i: &Issue)
    ensures
        final(out)@ == old(out)@ + render_issue_q1(i@),
{
    proof {
        reveal(render_issue_q1);
    }
    out.append("{\"id\":");
    push_jstr(out, i.id.as_str());
    out.append(",\"title\":");
    push_jstr(out, i.title.as_str());
    out.append(",\"description\":");
    push_jstr(out, i.description.as_str());
    out.append(",\"design\":");
    push_jstr(out, i.design.as_str());
    out.append(",\"acceptance_criteria\":");
    push_jstr(out, i.acceptance_criteria.as_str());
    out.append(",\"notes\":");
    push_jstr(out, i.notes.as_str());
    out.append(",\"status\":");
    push_jstr(out, i.status.as_str());
    proof {
        assert(out@ =~= old(out)@ + render_issue_q1(i@));
    }
}

#[verifier::rlimit(100)]
#[verifier::spinoff_prover]
fn push_issue_q2(out: &mut String, i: &Issue)
    ensures
        final(out)@ == old(out)@ + render_issue_q2(i@),
{
    proof {
        reveal(render_issue_q2);
    }
    out.append(",\"priority\":");
    push_dec_i64(out, i.priority as i64);
    proof {
        assert(dec_int(((i.priority as i64) as int)) == dec_int(i@.priority));
    }
    out.append(",\"issue_type\":");
    push_jstr(out, i.issue_type.as_str());
    out.append(",\"assignee\":");
    push_opt_str(out, &i.assignee);
    out.append(",\"estimated_minutes\":");
    push_opt_i32(out, &i.estimated_minutes);
    out.append(",\"created_at\":");
    push_dec_i64(out, i.created_at);
    out.append(",\"updated_at\":");
    push_dec_i64(out, i.updated_at);
    out.append(",\"closed_at\":");
    push_opt_i64(out, &i.closed_at);
    proof {
        assert(out@ =~= old(out)@ + render_issue_q2(i@));
    }
}

#[verifier::rlimit(100)]
#[verifier::spinoff_prover]
fn push_issue_q3(out: &mut String, i: &Issue)
    ensures
        final(out)@ == old(out)@ + render_issue_q3(i@),
{
    proof {
        reveal(render_issue_q3);
    }
    out.append(",\"external_ref\":");
    push_opt_str(out, &i.external_ref);
    out.append(",\"sender\":");
    push_jstr(out, i.sender.as_str());
    out.append(",\"ephemeral\":");
    push_bool(out, i.ephemeral);
    out.append(",\"replies_to\":");
    push_jstr(out, i.replies_to.as_str());
    out.append(",\"relates_to\":");
    push_strarr(out, &i.relates_to);
    out.append(",\"duplicate_of\":");
    push_jstr(out, i.duplicate_of.as_str());
    out.append(",\"superseded_by\":");
    push_jstr(out, i.superseded_by.as_str());
    proof {
        assert(out@ =~= old(out)@ + render_issue_q3(i@));
    }
}

#[verifier::rlimit(100)]
#[verifier::spinoff_prover]
fn push_issue_q4(out: &mut String, i: &Issue)
    ensures
        final(out)@ == old(out)@ + render_issue_q4(i@),
{
    proof {
        reveal(render_issue_q4);
    }
    out.append(",\"deleted_at\":");
    push_opt_i64(out, &i.deleted_at);
    out.append(",\"deleted_by\":");
    push_jstr(out, i.deleted_by.as_str());
    out.append(",\"delete_reason\":");
    push_jstr(out, i.delete_reason.as_str());
    out.append(",\"original_type\":");
    push_jstr(out, i.original_type.as_str());
    out.append(",\"labels\":");
    push_strarr(out, &i.labels);
    out.append(",\"dependencies\":");
    push_deparr(out, &i.dependencies);
    out.append(",\"comments\":");
    push_comarr(out, &i.comments);
    out.append("}");
    proof {
        assert(out@ =~= old(out)@ + render_issue_q4(i@));
    }
}

/// Appends the rendering of one issue record (no newline).
pub fn push_issue_line(out: &mut String, i: &Issue)
    ensures
        final(out)@ == old(out)@ + render_issue(i@),
{
    proof {
        reveal(render_issue);
    }
    push_issue_q1(out, i);
    push_issue_q2(out, i);
    push_issue_q3(out, i);
    push_issue_q4(out, i);
    proof {
        assert(out@ =~= old(out)@ + render_issue(i@));
    }
}

/// Parses one issue record starting at `pos`, exactly as [`sp_issue`]
/// describes.
#[verifier::rlimit(100)]
#[verifier::spinoff_prover]
pub fn p_issue(s: &str, pos: usize) -> (r: Option<(Issue, usize)>)
    requires
        pos <= s@.len(),
    ensures
        r is Some <==> sp_issue(s@.skip(pos as int)) is Some,
        r matches Option::Some(p) ==> pos <= p.1 <= s@.len() && sp_issue(s@.skip(pos as int))
            == Option::Some((p.0@, s@.skip(p.1 as int))),
{
    proof {
        reveal(sp_issue);
        reveal(sp_issue_q1);
        reveal(sp_issue_q2);
        reveal(sp_issue_q3);
        reveal(sp_issue_q4);
    }
    let (v_id, p_1) = match p_field_str(s, pos, "{\"id\":") {
        Option::Some(v) => v,
        Option::None => {
            return Option::None;
        },
    };
    let (v_title, p_2) = match p_field_str(s, p_1, ",\"title\":") {
        Option::Some(v) => v,
        Option::None => {
            return Option::None;
        },
    };
    let (v_description, p_3) = match p_field_str(s, p_2, ",\"description\":") {
        Option::Some(v) => v,
        Option::None => {
            return Option::None;
        },
    };
    let (v_design, p_4) = match p_field_str(s, p_3, ",\"design\":") {
        Option::Some(v) => v,
        Option::None => {
            return Option::None;
        },
    };
    let (v_acceptance_criteria, p_5) = match p_field_str(s, p_4, ",\"acceptance_criteria\":") {
        Option::Some(v) => v,
        Option::None => {
            return Option::None;
        },
    };
    let (v_notes, p_6) = match p_field_str(s, p_5, ",\"notes\":") {
        Option::Some(v) => v,
        Option::None => {
            return Option::None;
        },
    };
    let (v_status, p_7) = match p_field_str(s, p_6, ",\"status\":") {
        Option::Some(v) => v,
        Option::None => {
            return Option::None;
        },
    };
    proof {
        assert(sp_issue_q1(s@.skip(pos as int)) == Option::Some(
            ((v_id@, v_title@, v_description@, v_design@, v_acceptance_criteria@, v_notes@, v_status@), s@.skip(p_7 as int)),
        ));
    }
    let (v_priority, p_8) = match p_field_i32(s, p_7, ",\"priority\":") {
        Option::Some(v) => v,
        Option::None => {
            return Option::None;
        },
    };
    let (v_issue_type, p_9) = match p_field_str(s, p_8, ",\"issue_type\":") {
        Option::Some(v) => v,
        Option::None => {
            return Option::None;
        },
    };
    let (v_assignee, p_10) = match p_field_opt_str(s, p_9, ",\"assignee\":") {
        Option::Some(v) => v,
        Option::None => {
            return Option::None;
        },
    };
    let (v_estimated_minutes, p_11) = match p_field_opt_i32(s, p_10, ",\"estimated_minutes\":") {
        Option::Some(v) => v,
        Option::None => {
            return Option::None;
        },
    };
    let (v_created_at, p_12) = match p_field_i64(s, p_11, ",\"created_at\":") {
        Option::Some(v) => v,
        Option::None => {
            return Option::None;
        },
    };
    let (v_updated_at, p_13) = match p_field_i64(s, p_12, ",\"updated_at\":") {
        Option::Some(v) => v,
        Option::None => {
            return Option::None;
        },
    };
    let (v_closed_at, p_14) = match p_field_opt_i64(s, p_13, ",\"closed_at\":") {
        Option::Some(v) => v,
        Option::None => {
            return Option::None;
        },
    };
    proof {
        assert(sp_issue_q2(s@.skip(p_7 as int)) == Option::Some(
            ((v_priority as int, v_issue_type@, opt_str_view(v_assignee), opt_i32_view(v_estimated_minutes), v_created_at as int, v_updated_at as int, opt_i64_view(v_closed_at)), s@.skip(p_14 as int)),
        ));
    }
    let (v_external_ref, p_15) = match p_field_opt_str(s, p_14, ",\"external_ref\":") {
        Option::Some(v) => v,
        Option::None => {
            return Option::None;
        },
    };
    let (v_sender, p_16) = match p_field_str(s, p_15, ",\"sender\":") {
        Option::Some(v) => v,
        Option::None => {
            return Option::None;
        },
    };
    let (v_ephemeral, p_17) = match p_field_bool(s, p_16, ",\"ephemeral\":") {
        Option::Some(v) => v,
        Option::None => {
            return Option::None;
        },
    };
    let (v_replies_to, p_18) = match p_field_str(s, p_17, ",\"replies_to\":") {
        Option::Some(v) => v,
        Option::None => {
            return Option::None;
        },
    };
    let (v_relates_to, p_19) = match p_field_strarr(s, p_18, ",\"relates_to\":") {
        Option::Some(v) => v,
        Option::None => {
            return Option::None;
        },
    };
    let (v_duplicate_of, p_20) = match p_field_str(s, p_19, ",\"duplicate_of\":") {
        Option::Some(v) => v,
        Option::None => {
            return Option::None;
        },
    };
    let (v_superseded_by, p_21) = match p_field_str(s, p_20, ",\"superseded_by\":") {
        Option::Some(v) => v,
        Option::None => {
            return Option::None;
        },
    };
    proof {
        assert(sp_issue_q3(s@.skip(p_14 as int)) == Option::Some(
            ((opt_str_view(v_external_ref), v_sender@, v_ephemeral, v_replies_to@, v_relates_to.deep_view(), v_duplicate_of@, v_superseded_by@), s@.skip(p_21 as int)),
        ));
    }
    let (v_deleted_at, p_22) = match p_field_opt_i64(s, p_21, ",\"deleted_at\":") {
        Option::Some(v) => v,
        Option::None => {
            return Option::None;
        },
    };
    let (v_deleted_by, p_23) = match p_field_str(s, p_22, ",\"deleted_by\":") {
        Option::Some(v) => v,
        Option::None => {
            return Option::None;
        },
    };
    let (v_delete_reason, p_24) = match p_field_str(s, p_23, ",\"delete_reason\":") {
        Option::Some(v) => v,
        Option::None => {
            return Option::None;
        },
    };
    let (v_original_type, p_25) = match p_field_str(s, p_24, ",\"original_type\":") {
        Option::Some(v) => v,
        Option::None => {
            return Option::None;
        },
    };
    let (v_labels, p_26) = match p_field_strarr(s, p_25, ",\"labels\":") {
        Option::Some(v) => v,
        Option::None => {
            return Option::None;
        },
    };
    let (v_dependencies, p_27) = match p_field_deparr(s, p_26, ",\"dependencies\":") {
        Option::Some(v) => v,
        Option::None => {
            return Option::None;
        },
    };
    let (v_comments, p_28) = match p_field_comarr(s, p_27, ",\"comments\":") {
        Option::Some(v) => v,
        Option::None => {
            return Option::None;
        },
    };
    let p_end = match p_lit(s, p_28, "}") {
        Option::Some(np) => np,
        Option::None => {
            return Option::None;
        },
    };
    proof {
        assert(sp_issue_q4(s@.skip(p_21 as int)) == Option::Some(
            ((opt_i64_view(v_deleted_at), v_deleted_by@, v_delete_reason@, v_original_type@, v_labels.deep_view(), v_dependencies.deep_view(), v_comments.deep_view()), s@.skip(p_end as int)),
        ));
    }
    let issue = Issue {
        id: v_id,
        title: v_title,
        description: v_description,
        design: v_design,
        acceptance_criteria: v_acceptance_criteria,
        notes: v_notes,
        status: v_status,
        priority: v_priority,
        issue_type: v_issue_type,
        assignee: v_assignee,
        estimated_minutes: v_estimated_minutes,
        created_at: v_created_at,
        updated_at: v_updated_at,
        closed_at: v_closed_at,
        external_ref: v_external_ref,
        sender: v_sender,
        ephemeral: v_ephemeral,
        replies_to: v_replies_to,
        relates_to: v_relates_to,
        duplicate_of: v_duplicate_of,
        superseded_by: v_superseded_by,
        deleted_at: v_deleted_at,
        deleted_by: v_deleted_by,
        delete_reason: v_delete_reason,
        original_type: v_original_type,
        labels: v_labels,
        dependencies: v_dependencies,
        comments: v_comments,
        content_hash: String::new(),
    };
    proof {
        assert(issue@ == sp_issue(s@.skip(pos as int))->Some_0.0);
    }
    Option::Some((issue, p_end))
}


proof fn lemma_sp_field_str_shrinks(s: Seq<char>, key: Seq<char>)
    ensures
        sp_field_str(s, key) matches Option::Some(p) ==> p.1.len() < s.len(),
{
    if sp_lit(s, key) is Some {
        lemma_sp_jstr_shrinks(sp_lit(s, key)->Some_0);
    }
}

proof fn lemma_sp_field_i64_shrinks(s: Seq<char>, key: Seq<char>)
    ensures
        sp_field_i64(s, key) matches Option::Some(p) ==> p.1.len() < s.len(),
{
    if sp_lit(s, key) is Some {
        lemma_sp_i64_shrinks(sp_lit(s, key)->Some_0);
    }
}

proof fn lemma_sp_field_i32_shrinks(s: Seq<char>, key: Seq<char>)
    ensures
        sp_field_i32(s, key) matches Option::Some(p) ==> p.1.len() < s.len(),
{
    lemma_sp_field_i64_shrinks(s, key);
}

proof fn lemma_sp_field_opt_str_shrinks(s: Seq<char>, key: Seq<char>)
    ensures
        sp_field_opt_str(s, key) matches Option::Some(p) ==> p.1.len() < s.len(),
{
    reveal_strlit("null");
    if sp_lit(s, key) is Some {
        let r = sp_lit(s, key)->Some_0;
        if sp_lit(r, "null"@) is Some {
        } else {
            lemma_sp_jstr_shrinks(r);
        }
    }
}

proof fn lemma_sp_field_opt_i64_shrinks(s: Seq<char>, key: Seq<char>)
    ensures
        sp_field_opt_i64(s, key) matches Option::Some(p) ==> p.1.len() < s.len(),
{
    reveal_strlit("null");
    if sp_lit(s, key) is Some {
        let r = sp_lit(s, key)->Some_0;
        if sp_lit(r, "null"@) is Some {
        } else {
            lemma_sp_i64_shrinks(r);
        }
    }
}

proof fn lemma_sp_field_opt_i32_shrinks(s: Seq<char>, key: Seq<char>)
    ensures
        sp_field_opt_i32(s, key) matches Option::Some(p) ==> p.1.len() < s.len(),
{
    lemma_sp_field_opt_i64_shrinks(s, key);
}

proof fn lemma_sp_field_bool_shrinks(s: Seq<char>, key: Seq<char>)
    ensures
        sp_field_bool(s, key) matches Option::Some(p) ==> p.1.len() < s.len(),
{
    reveal_strlit("true");
    reveal_strlit("false");
}

proof fn lemma_sp_strarr_items_shrinks(s: Seq<char>)
    ensures
        sp_strarr_items(s) matches Option::Some(p) ==> p.1.len() < s.len(),
    decreases s.len(),
{
    if sp_jstr(s) is Some {
        lemma_sp_jstr_shrinks(s);
        let (v, r) = sp_jstr(s)->Some_0;
        if r.len() > 0 && r[0] == ',' {
            lemma_sp_strarr_items_shrinks(r.skip(1));
        }
    }
}

proof fn lemma_sp_field_strarr_shrinks(s: Seq<char>, key: Seq<char>)
    ensures
        sp_field_strarr(s, key) matches Option::Some(p) ==> p.1.len() < s.len(),
{
    if sp_lit(s, key) is Some {
        let r = sp_lit(s, key)->Some_0;
        if r.len() >= 2 && r[0] == '[' && r[1] == ']' {
        } else if r.len() >= 1 && r[0] == '[' {
            lemma_sp_strarr_items_shrinks(r.skip(1));
        }
    }
}

proof fn lemma_sp_deparr_items_shrinks(s: Seq<char>)
    ensures
        sp_deparr_items(s) matches Option::Some(p) ==> p.1.len() < s.len(),
    decreases s.len(),
{
    if sp_dep(s) is Some {
        lemma_sp_dep_shrinks(s);
        let (v, r) = sp_dep(s)->Some_0;
        if r.len() > 0 && r[0] == ',' {
            lemma_sp_deparr_items_shrinks(r.skip(1));
        }
    }
}

proof fn lemma_sp_field_deparr_shrinks(s: Seq<char>, key: Seq<char>)
    ensures
        sp_field_deparr(s, key) matches Option::Some(p) ==> p.1.len() < s.len(),
{
    if sp_lit(s, key) is Some {
        let r = sp_lit(s, key)->Some_0;
        if r.len() >= 2 && r[0] == '[' && r[1] == ']' {
        } else if r.len() >= 1 && r[0] == '[' {
            lemma_sp_deparr_items_shrinks(r.skip(1));
        }
    }
}

proof fn lemma_sp_comarr_items_shrinks(s: Seq<char>)
    ensures
        sp_comarr_items(s) matches Option::Some(p) ==> p.1.len() < s.len(),
    decreases s.len(),
{
    if sp_comment(s) is Some {
        lemma_sp_comment_shrinks(s);
        let (v, r) = sp_comment(s)->Some_0;
        if r.len() > 0 && r[0] == ',' {
            lemma_sp_comarr_items_shrinks(r.skip(1));
        }
    }
}

proof fn lemma_sp_field_comarr_shrinks(s: Seq<char>, key: Seq<char>)
    ensures
        sp_field_comarr(s, key) matches Option::Some(p) ==> p.1.len() < s.len(),
{
    if sp_lit(s, key) is Some {
        let r = sp_lit(s, key)->Some_0;
        if r.len() >= 2 && r[0] == '[' && r[1] == ']' {
        } else if r.len() >= 1 && r[0] == '[' {
            lemma_sp_comarr_items_shrinks(r.skip(1));
        }
    }
}

/// A successful record parse always consumes characters.
pub proof fn lemma_sp_issue_shrinks(s: Seq<char>)
    ensures
        sp_issue(s) matches Option::Some(p) ==> p.1.len() < s.len(),
{
    reveal(sp_issue);
    reveal(sp_issue_q1);
    reveal(sp_issue_q2);
    reveal(sp_issue_q3);
    reveal(sp_issue_q4);
    if sp_issue(s) is Some {
        lemma_sp_field_str_shrinks(s, "{\"id\":"@);
        let s0 = sp_field_str(s, "{\"id\":"@)->Some_0.1;
        lemma_sp_field_str_shrinks(s0, ",\"title\":"@);
        let s1 = sp_field_str(s0, ",\"title\":"@)->Some_0.1;
        lemma_sp_field_str_shrinks(s1, ",\"description\":"@);
        let s2 = sp_field_str(s1, ",\"description\":"@)->Some_0.1;
        lemma_sp_field_str_shrinks(s2, ",\"design\":"@);
        let s3 = sp_field_str(s2, ",\"design\":"@)->Some_0.1;
        lemma_sp_field_str_shrinks(s3, ",\"acceptance_criteria\":"@);
        let s4 = sp_field_str(s3, ",\"acceptance_criteria\":"@)->Some_0.1;
        lemma_sp_field_str_shrinks(s4, ",\"notes\":"@);
        let s5 = sp_field_str(s4, ",\"notes\":"@)->Some_0.1;
        lemma_sp_field_str_shrinks(s5, ",\"status\":"@);
        let s6 = sp_field_str(s5, ",\"status\":"@)->Some_0.1;
        lemma_sp_field_i32_shrinks(s6, ",\"priority\":"@);
        let s7 = sp_field_i32(s6, ",\"priority\":"@)->Some_0.1;
        lemma_sp_field_str_shrinks(s7, ",\"issue_type\":"@);
        let s8 = sp_field_str(s7, ",\"issue_type\":"@)->Some_0.1;
        lemma_sp_field_opt_str_shrinks(s8, ",\"assignee\":"@);
        let s9 = sp_field_opt_str(s8, ",\"assignee\":"@)->Some_0.1;
        lemma_sp_field_opt_i32_shrinks(s9, ",\"estimated_minutes\":"@);
        let s10 = sp_field_opt_i32(s9, ",\"estimated_minutes\":"@)->Some_0.1;
        lemma_sp_field_i64_shrinks(s10, ",\"created_at\":"@);
        let s11 = sp_field_i64(s10, ",\"created_at\":"@)->Some_0.1;
        lemma_sp_field_i64_shrinks(s11, ",\"updated_at\":"@);
        let s12 = sp_field_i64(s11, ",\"updated_at\":"@)->Some_0.1;
        lemma_sp_field_opt_i64_shrinks(s12, ",\"closed_at\":"@);
        let s13 = sp_field_opt_i64(s12, ",\"closed_at\":"@)->Some_0.1;
        lemma_sp_field_opt_str_shrinks(s13, ",\"external_ref\":"@);
        let s14 = sp_field_opt_str(s13, ",\"external_ref\":"@)->Some_0.1;
        lemma_sp_field_str_shrinks(s14, ",\"sender\":"@);
        let s15 = sp_field_str(s14, ",\"sender\":"@)->Some_0.1;
        lemma_sp_field_bool_shrinks(s15, ",\"ephemeral\":"@);
        let s16 = sp_field_bool(s15, ",\"ephemeral\":"@)->Some_0.1;
        lemma_sp_field_str_shrinks(s16, ",\"replies_to\":"@);
        let s17 = sp_field_str(s16, ",\"replies_to\":"@)->Some_0.1;
        lemma_sp_field_strarr_shrinks(s17, ",\"relates_to\":"@);
        let s18 = sp_field_strarr(s17, ",\"relates_to\":"@)->Some_0.1;
        lemma_sp_field_str_shrinks(s18, ",\"duplicate_of\":"@);
        let s19 = sp_field_str(s18, ",\"duplicate_of\":"@)->Some_0.1;
        lemma_sp_field_str_shrinks(s19, ",\"superseded_by\":"@);
        let s20 = sp_field_str(s19, ",\"superseded_by\":"@)->Some_0.1;
        lemma_sp_field_opt_i64_shrinks(s20, ",\"deleted_at\":"@);
        let s21 = sp_field_opt_i64(s20, ",\"deleted_at\":"@)->Some_0.1;
        lemma_sp_field_str_shrinks(s21, ",\"deleted_by\":"@);
        let s22 = sp_field_str(s21, ",\"deleted_by\":"@)->Some_0.1;
        lemma_sp_field_str_shrinks(s22, ",\"delete_reason\":"@);
        let s23 = sp_field_str(s22, ",\"delete_reason\":"@)->Some_0.1;
        lemma_sp_field_str_shrinks(s23, ",\"original_type\":"@);
        let s24 = sp_field_str(s23, ",\"original_type\":"@)->Some_0.1;
        lemma_sp_field_strarr_shrinks(s24, ",\"labels\":"@);
        let s25 = sp_field_strarr(s24, ",\"labels\":"@)->Some_0.1;
        lemma_sp_field_deparr_shrinks(s25, ",\"dependencies\":"@);
        let s26 = sp_field_deparr(s25, ",\"dependencies\":"@)->Some_0.1;
        lemma_sp_field_comarr_shrinks(s26, ",\"comments\":"@);
        let s27 = sp_field_comarr(s26, ",\"comments\":"@)->Some_0.1;
        assert(sp_lit(s27, "}"@)->Some_0.len() < s.len());
    }
}


/// Rendering of a whole log: one record per line, newline terminated.
pub open spec fn render_log(ms: Seq<IssueModel>) -> Seq<char>
    decreases ms.len(),
{
    if ms.len() == 0 {
        Seq::<char>::empty()
    } else {
        (render_issue(ms[0]) + seq!['\n']) + render_log(ms.skip(1))
    }
}

/// Parses a whole log: records in order, blank space between them ignored.
/// Any line that does not parse as a record fails the whole log.
pub open spec fn sp_log(s: Seq<char>) -> Option<Seq<IssueModel>>
    decreases s.len(),
{
    if s.len() == 0 {
        Option::Some(Seq::<IssueModel>::empty())
    } else if crate::text::is_space(s[0]) {
        sp_log(s.skip(1))
    } else {
        match sp_issue(s) {
            Option::None => Option::None,
            Option::Some((m, r)) => {
                proof {
                    lemma_sp_issue_shrinks(s);
                }
                match sp_log(r) {
                    Option::None => Option::None,
                    Option::Some(ms) => Option::Some(seq![m] + ms),
                }
            },
        }
    }
}

/// A rendered record starts with an opening brace.
pub proof fn lemma_render_issue_head(m: IssueModel)
    ensures
        render_issue(m).len() > 0,
        render_issue(m)[0] == '{',
{
    reveal(render_issue);
    reveal(render_issue_q1);
    reveal_strlit("{\"id\":");
    assert(render_issue(m)[0] == render_issue_q1(m)[0]);
    assert(render_issue_q1(m)[0] == "{\"id\":"@[0]);
}

/// Parsing a log inverts rendering it, for records whose content hash is
/// empty, as every record of a snapshot is.
pub proof fn lemma_sp_log_inv(ms: Seq<IssueModel>)
    requires
        forall|i: int|
            0 <= i < ms.len() ==> wf_issue(#[trigger] ms[i]) && ms[i].content_hash
                == Seq::<char>::empty(),
    ensures
        sp_log(render_log(ms)) == Option::Some(ms),
    decreases ms.len(),
{
    if ms.len() > 0 {
        let m0 = ms[0];
        let tail = seq!['\n'] + render_log(ms.skip(1));
        let s = render_log(ms);
        assert(s =~= render_issue(m0) + tail);
        lemma_render_issue_head(m0);
        assert(s[0] == render_issue(m0)[0]);
        assert(!crate::text::is_space(s[0]));
        lemma_sp_issue_inv(m0, tail);
        assert(strip_hash(m0) =~= m0);
        assert(tail[0] == '\n');
        assert(tail.skip(1) =~= render_log(ms.skip(1)));
        lemma_sp_log_inv(ms.skip(1));
        lemma_sp_issue_shrinks(s);
        assert(sp_issue(s) == Option::Some((m0, tail)));
        assert(crate::text::is_space(tail[0]));
        assert(sp_log(tail) == sp_log(tail.skip(1)));
        assert(sp_log(tail) == Option::Some(ms.skip(1)));
        assert(sp_log(s) == Option::Some(seq![m0] + ms.skip(1)));
        assert(seq![m0] + ms.skip(1) =~= ms);
    }
}

/// Appending one more record line to a rendered log.
pub proof fn lemma_render_log_snoc(p: Seq<IssueModel>, m: IssueModel)
    ensures
        render_log(p.push(m)) == render_log(p) + (render_issue(m) + seq!['\n']),
    decreases p.len(),
{
    if p.len() == 0 {
        let x = p.push(m);
        assert(x[0] == m);
        assert(x.skip(1) =~= Seq::<IssueModel>::empty());
        assert(render_log(x) == (render_issue(m) + seq!['\n']) + render_log(x.skip(1)));
        assert(render_log(x.skip(1)) == Seq::<char>::empty());
        assert((render_issue(m) + seq!['\n']) + Seq::<char>::empty() =~= render_log(p) + (
        render_issue(m) + seq!['\n']));
    } else {
        assert(p.push(m)[0] == p[0]);
        assert(p.push(m).skip(1) =~= p.skip(1).push(m));
        lemma_render_log_snoc(p.skip(1), m);
        assert((render_issue(p[0]) + seq!['\n']) + (render_log(p.skip(1)) + (render_issue(m)
            + seq!['\n'])) =~= ((render_issue(p[0]) + seq!['\n']) + render_log(p.skip(1))) + (
        render_issue(m) + seq!['\n']));
    }
}

/// Renders a whole log to one string.
pub fn render_log_string(issues: &Vec<Issue>) -> (r: String)
    ensures
        r@ == render_log(issues.deep_view()),
{
    let mut out = String::new();
    let mut i: usize = 0;
    while i < issues.len()
        invariant
            i <= issues.len(),
            out@ == render_log(issues.deep_view().take(i as int)),
        decreases issues.len() - i,
    {
        let ghost pre = out@;
        push_issue_line(&mut out, &issues[i]);
        push_char(&mut out, '\n');
        proof {
            lemma_render_log_snoc(issues.deep_view().take(i as int), issues.deep_view()[i as int]);
            assert(issues.deep_view().take(i + 1) =~= issues.deep_view().take(i as int).push(
                issues.deep_view()[i as int],
            ));
            assert(out@ =~= pre + (render_issue(issues.deep_view()[i as int]) + seq!['\n']));
        }
        i = i + 1;
    }
    proof {
        assert(issues.deep_view().take(issues.len() as int) =~= issues.deep_view());
    }
    out
}

/// Parses a whole log string, exactly as [`sp_log`] describes.
pub fn p_log(s: &str) -> (r: Option<Vec<Issue>>)
    ensures
        r is Some <==> sp_log(s@) is Some,
        r matches Option::Some(v) ==> sp_log(s@) == Option::Some(v.deep_view()),
{
    let slen = s.unicode_len();
    let mut out: Vec<Issue> = Vec::new();
    let mut pos: usize = 0;
    proof {
        assert(s@.skip(0) =~= s@);
        assert(out.deep_view() =~= Seq::<IssueModel>::empty());
        match sp_log(s@) {
            Option::Some(ms) => {
                assert(out.deep_view() + ms =~= ms);
            },
            Option::None => {},
        }
    }
    loop
        invariant
            slen == s@.len(),
            pos <= slen,
            match sp_log(s@.skip(pos as int)) {
                Option::Some(ms) => sp_log(s@) == Option::Some(out.deep_view() + ms),
                Option::None => sp_log(s@) is None,
            },
        decreases slen - pos,
    {
        if pos >= slen {
            proof {
                assert(s@.skip(pos as int).len() == 0);
                assert(out.deep_view() + Seq::<IssueModel>::empty() =~= out.deep_view());
            }
            return Option::Some(out);
        }
        let c = s.get_char(pos);
        proof {
            assert(s@.skip(pos as int)[0] == s@[pos as int]);
            assert(s@.skip(pos as int).skip(1) =~= s@.skip(pos as int + 1));
        }
        if c == ' ' || c == '\t' || c == '\n' || c == '\r' {
            pos = pos + 1;
        } else {
            match p_issue(s, pos) {
                Option::None => {
                    return Option::None;
                },
                Option::Some((iss, np)) => {
                    proof {
                        lemma_sp_issue_shrinks(s@.skip(pos as int));
                    }
                    let ghost pre = out.deep_view();
                    let ghost mm = iss@;
                    out.push(iss);
                    proof {
                        assert(out.deep_view() =~= pre.push(mm));
                        match sp_log(s@.skip(np as int)) {
                            Option::Some(ms) => {
                                assert(pre + (seq![mm] + ms) =~= out.deep_view() + ms);
                            },
                            Option::None => {},
                        }
                    }
                    pos = np;
                },
            }
        }
    }
}


/// A parsed dependency is well formed: its number came from a bounded
/// parser.
proof fn lemma_sp_dep_wf(s: Seq<char>)
    ensures
        sp_dep(s) matches Option::Some(p) ==> wf_dep(p.0),
{
}

/// Every dependency of a parsed array is well formed.
proof fn lemma_sp_deparr_items_wf(s: Seq<char>)
    ensures
        sp_deparr_items(s) matches Option::Some(p) ==> forall|i: int|
            0 <= i < p.0.len() ==> wf_dep(#[trigger] p.0[i]),
    decreases s.len(),
{
    if sp_dep(s) is Some {
        lemma_sp_dep_wf(s);
        lemma_sp_dep_shrinks(s);
        let (v, r) = sp_dep(s)->Some_0;
        if r.len() > 0 && r[0] == ',' {
            lemma_sp_deparr_items_wf(r.skip(1));
        }
    }
}

proof fn lemma_sp_deparr_wf(s: Seq<char>)
    ensures
        sp_deparr(s) matches Option::Some(p) ==> forall|i: int|
            0 <= i < p.0.len() ==> wf_dep(#[trigger] p.0[i]),
{
    if s.len() >= 2 && s[0] == '[' && s[1] == ']' {
    } else if s.len() >= 1 && s[0] == '[' {
        lemma_sp_deparr_items_wf(s.skip(1));
    }
}

proof fn lemma_sp_comment_wf(s: Seq<char>)
    ensures
        sp_comment(s) matches Option::Some(p) ==> wf_comment(p.0),
{
}

proof fn lemma_sp_comarr_items_wf(s: Seq<char>)
    ensures
        sp_comarr_items(s) matches Option::Some(p) ==> forall|i: int|
            0 <= i < p.0.len() ==> wf_comment(#[trigger] p.0[i]),
    decreases s.len(),
{
    if sp_comment(s) is Some {
        lemma_sp_comment_wf(s);
        lemma_sp_comment_shrinks(s);
        let (v, r) = sp_comment(s)->Some_0;
        if r.len() > 0 && r[0] == ',' {
            lemma_sp_comarr_items_wf(r.skip(1));
        }
    }
}

proof fn lemma_sp_comarr_wf(s: Seq<char>)
    ensures
        sp_comarr(s) matches Option::Some(p) ==> forall|i: int|
            0 <= i < p.0.len() ==> wf_comment(#[trigger] p.0[i]),
{
    if s.len() >= 2 && s[0] == '[' && s[1] == ']' {
    } else if s.len() >= 1 && s[0] == '[' {
        lemma_sp_comarr_items_wf(s.skip(1));
    }
}

/// A parsed record is well formed and carries an empty content hash.
pub proof fn lemma_sp_issue_wf(s: Seq<char>)
    ensures
        sp_issue(s) matches Option::Some(p) ==> wf_issue(p.0) && p.0.content_hash
            == Seq::<char>::empty(),
{
    reveal(sp_issue);
    reveal(sp_issue_q2);
    reveal(sp_issue_q4);
    if sp_issue(s) is Some {
        let (q1v, s1) = sp_issue_q1(s)->Some_0;
        let (q2v, s2) = sp_issue_q2(s1)->Some_0;
        let (q3v, s3) = sp_issue_q3(s2)->Some_0;
        let s25 = sp_field_str(
            sp_field_str(
                sp_field_str(
                    sp_field_opt_i64(s3, ",\"deleted_at\":"@)->Some_0.1,
                    ",\"deleted_by\":"@,
                )->Some_0.1,
                ",\"delete_reason\":"@,
            )->Some_0.1,
            ",\"original_type\":"@,
        )->Some_0.1;
        let s26 = sp_field_strarr(s25, ",\"labels\":"@)->Some_0.1;
        if sp_lit(s26, ",\"dependencies\":"@) is Some {
            lemma_sp_deparr_wf(sp_lit(s26, ",\"dependencies\":"@)->Some_0);
            let s27 = sp_field_deparr(s26, ",\"dependencies\":"@)->Some_0.1;
            if sp_lit(s27, ",\"comments\":"@) is Some {
                lemma_sp_comarr_wf(sp_lit(s27, ",\"comments\":"@)->Some_0);
            }
        }
    }
}

/// Every record of a parsed log is well formed with an empty content hash.
pub proof fn lemma_sp_log_wf(s: Seq<char>)
    ensures
        sp_log(s) matches Option::Some(ms) ==> forall|i: int|
            0 <= i < ms.len() ==> wf_issue(#[trigger] ms[i]) && ms[i].content_hash
                == Seq::<char>::empty(),
    decreases s.len(),
{
    if s.len() == 0 {
    } else if crate::text::is_space(s[0]) {
        lemma_sp_log_wf(s.skip(1));
    } else {
        if sp_issue(s) is Some {
            lemma_sp_issue_wf(s);
            lemma_sp_issue_shrinks(s);
            let (m, r) = sp_issue(s)->Some_0;
            lemma_sp_log_wf(r);
        }
    }
}

} // verus!
