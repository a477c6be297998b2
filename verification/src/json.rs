//! JSON string literals for the canonical log: escaping, rendering and
//! parsing, with the proof that parsing inverts rendering.
//!
//! The quote, the backslash, the newline, the carriage return and the tab
//! are escaped; every other character is carried verbatim.

use crate::num::is_digit;
use crate::text::push_char;
use vstd::prelude::*;

verus! {

/// Escape codes accepted after a backslash.
pub open spec fn is_esc_code(e: char) -> bool {
    e == '"' || e == '\\' || e == 'n' || e == 'r' || e == 't'
}

/// The character an escape code stands for.
pub open spec fn unesc(e: char) -> char {
    if e == '"' {
        '"'
    } else if e == '\\' {
        '\\'
    } else if e == 'n' {
        '\n'
    } else if e == 'r' {
        '\r'
    } else {
        '\t'
    }
}

/// The escaped form of one character.
pub open spec fn esc_char(c: char) -> Seq<char> {
    if c == '"' {
        seq!['\\', '"']
    } else if c == '\\' {
        seq!['\\', '\\']
    } else if c == '\n' {
        seq!['\\', 'n']
    } else if c == '\r' {
        seq!['\\', 'r']
    } else if c == '\t' {
        seq!['\\', 't']
    } else {
        seq![c]
    }
}

/// The escaped form of a character sequence.
pub open spec fn esc(s: Seq<char>) -> Seq<char>
    decreases s.len(),
{
    if s.len() == 0 {
        Seq::<char>::empty()
    } else {
        esc_char(s[0]) + esc(s.skip(1))
    }
}

/// The rendering of a JSON string literal: quotes around the escaped text.
pub open spec fn jstr(s: Seq<char>) -> Seq<char> {
    seq!['"'] + esc(s) + seq!['"']
}

/// Parses the body of a string literal up to its closing quote, returning
/// the decoded text and the remainder after the quote.
pub open spec fn sp_str_body(s: Seq<char>) -> Option<(Seq<char>, Seq<char>)>
    decreases s.len(),
{
    if s.len() == 0 {
        Option::None
    } else if s[0] == '"' {
        Option::Some((Seq::<char>::empty(), s.skip(1)))
    } else if s[0] == '\\' {
        if s.len() < 2 || !is_esc_code(s[1]) {
            Option::None
        } else {
            match sp_str_body(s.skip(2)) {
                Option::None => Option::None,
                Option::Some((v, r)) => Option::Some((seq![unesc(s[1])] + v, r)),
            }
        }
    } else {
        match sp_str_body(s.skip(1)) {
            Option::None => Option::None,
            Option::Some((v, r)) => Option::Some((seq![s[0]] + v, r)),
        }
    }
}

/// Parses a whole string literal, opening quote included.
pub open spec fn sp_jstr(s: Seq<char>) -> Option<(Seq<char>, Seq<char>)> {
    if s.len() > 0 && s[0] == '"' {
        sp_str_body(s.skip(1))
    } else {
        Option::None
    }
}

/// Escaping one more character extends the escaped text.
pub proof fn lemma_esc_push(p: Seq<char>, c: char)
    ensures
        esc(p.push(c)) == esc(p) + esc_char(c),
    decreases p.len(),
{
    if p.len() == 0 {
        let x = p.push(c);
        assert(x.len() == 1);
        assert(x[0] == c);
        assert(x.skip(1) =~= Seq::<char>::empty());
        assert(esc(x) == esc_char(c) + esc(Seq::<char>::empty()));
        assert(esc(Seq::<char>::empty()) == Seq::<char>::empty());
        assert(esc_char(c) + Seq::<char>::empty() =~= esc_char(c));
        assert(esc(p) + esc_char(c) =~= esc_char(c));
    } else {
        assert(p.push(c)[0] == p[0]);
        assert(p.push(c).skip(1) =~= p.skip(1).push(c));
        lemma_esc_push(p.skip(1), c);
        assert(esc_char(p[0]) + (esc(p.skip(1)) + esc_char(c)) =~= (esc_char(p[0]) + esc(
            p.skip(1),
        )) + esc_char(c));
    }
}

/// Parsing a string body inverts escaping, whatever follows the closing
/// quote.
pub proof fn lemma_sp_body_inv(v: Seq<char>, rest: Seq<char>)
    ensures
        sp_str_body(esc(v) + seq!['"'] + rest) == Option::Some((v, rest)),
    decreases v.len(),
{
    let s = esc(v) + seq!['"'] + rest;
    if v.len() == 0 {
        assert(esc(v).len() == 0);
        assert(s[0] == '"');
        assert(s.skip(1) =~= rest);
    } else {
        let head = esc_char(v[0]);
        let tail = esc(v.skip(1)) + seq!['"'] + rest;
        assert(esc(v) == head + esc(v.skip(1)));
        assert(s =~= head + tail);
        lemma_sp_body_inv(v.skip(1), rest);
        if v[0] == '"' || v[0] == '\\' || v[0] == '\n' || v[0] == '\r' || v[0] == '\t' {
            assert(head.len() == 2);
            assert(s[0] == head[0] && s[1] == head[1]);
            assert(s[0] == '\\');
            assert(is_esc_code(s[1]));
            assert(unesc(s[1]) == v[0]);
            assert(s.skip(2) =~= tail);
            assert(seq![v[0]] + v.skip(1) =~= v);
        } else {
            assert(head.len() == 1);
            assert(s[0] == v[0]);
            assert(s[0] != '"' && s[0] != '\\');
            assert(s.skip(1) =~= tail);
            assert(seq![v[0]] + v.skip(1) =~= v);
        }
    }
}

/// Parsing a whole literal inverts rendering.
pub proof fn lemma_sp_jstr_inv(v: Seq<char>, rest: Seq<char>)
    ensures
        sp_jstr(jstr(v) + rest) == Option::Some((v, rest)),
{
    let s = jstr(v) + rest;
    assert(s[0] == '"');
    assert(s.skip(1) =~= esc(v) + seq!['"'] + rest);
    lemma_sp_body_inv(v, rest);
}

/// Appends the rendering of a string literal.
pub fn push_jstr(out: &mut String, s: &str)
    ensures
        final(out)@ == old(out)@ + jstr(s@),
{
    push_char(out, '"');
    let slen = s.unicode_len();
    let mut i: usize = 0;
    while i < slen
        invariant
            slen == s@.len(),
            i <= slen,
            out@ == old(out)@ + seq!['"'] + esc(s@.subrange(0, i as int)),
        decreases slen - i,
    {
        let c = s.get_char(i);
        let ghost pre = s@.subrange(0, i as int);
        proof {
            lemma_esc_push(pre, c);
            assert(pre.push(c) =~= s@.subrange(0, i + 1));
        }
        if c == '"' {
            push_char(out, '\\');
            push_char(out, '"');
        } else if c == '\\' {
            push_char(out, '\\');
            push_char(out, '\\');
        } else if c == '\n' {
            push_char(out, '\\');
            push_char(out, 'n');
        } else if c == '\r' {
            push_char(out, '\\');
            push_char(out, 'r');
        } else if c == '\t' {
            push_char(out, '\\');
            push_char(out, 't');
        } else {
            push_char(out, c);
        }
        proof {
            assert(out@ =~= old(out)@ + seq!['"'] + esc(s@.subrange(0, i + 1)));
        }
        i = i + 1;
    }
    push_char(out, '"');
    proof {
        assert(s@.subrange(0, s@.len() as int) =~= s@);
        assert(out@ =~= old(out)@ + jstr(s@));
    }
}

/// Parses a string literal starting at `pos`, exactly as [`sp_jstr`]
/// describes.
pub fn p_jstr(s: &str, pos: usize) -> (r: Option<(String, usize)>)
    requires
        pos <= s@.len(),
    ensures
        r is Some <==> sp_jstr(s@.skip(pos as int)) is Some,
        r matches Option::Some(p) ==> pos <= p.1 <= s@.len() && sp_jstr(s@.skip(pos as int))
            == Option::Some((p.0@, s@.skip(p.1 as int))),
{
    let slen = s.unicode_len();
    if pos >= slen || s.get_char(pos) != '"' {
        proof {
            if pos < slen {
                assert(s@.skip(pos as int)[0] == s@[pos as int]);
            }
        }
        return Option::None;
    }
    proof {
        assert(s@.skip(pos as int)[0] == s@[pos as int]);
        assert(s@.skip(pos as int).skip(1) =~= s@.skip(pos as int + 1));
    }
    let mut out = String::new();
    let mut i: usize = pos + 1;
    loop
        invariant
            slen == s@.len(),
            pos + 1 <= i <= slen,
            s@[pos as int] == '"',
            sp_jstr(s@.skip(pos as int)) == sp_str_body(s@.skip(pos as int + 1)),
            match sp_str_body(s@.skip(i as int)) {
                Option::Some(p) => sp_str_body(s@.skip(pos as int + 1)) == Option::Some(
                    (out@ + p.0, p.1),
                ),
                Option::None => sp_str_body(s@.skip(pos as int + 1)) is None,
            },
        decreases slen - i,
    {
        if i >= slen {
            proof {
                assert(s@.skip(i as int).len() == 0);
            }
            return Option::None;
        }
        let c = s.get_char(i);
        proof {
            assert(s@.skip(i as int)[0] == s@[i as int]);
            assert(s@.skip(i as int).skip(1) =~= s@.skip(i as int + 1));
        }
        if c == '"' {
            proof {
                assert(sp_str_body(s@.skip(i as int)) == Option::Some(
                    (Seq::<char>::empty(), s@.skip(i as int + 1)),
                ));
                assert(out@ + Seq::<char>::empty() =~= out@);
            }
            return Option::Some((out, i + 1));
        } else if c == '\\' {
            if i + 1 >= slen {
                proof {
                    assert(s@.skip(i as int).len() < 2);
                }
                return Option::None;
            }
            let e = s.get_char(i + 1);
            proof {
                assert(s@.skip(i as int)[1] == s@[i as int + 1]);
                assert(s@.skip(i as int).skip(2) =~= s@.skip(i as int + 2));
            }
            let d: char;
            if e == '"' {
                d = '"';
            } else if e == '\\' {
                d = '\\';
            } else if e == 'n' {
                d = '\n';
            } else if e == 'r' {
                d = '\r';
            } else if e == 't' {
                d = '\t';
            } else {
                return Option::None;
            }
            let ghost preout = out@;
            push_char(&mut out, d);
            proof {
                match sp_str_body(s@.skip(i as int + 2)) {
                    Option::Some(p) => {
                        assert(preout + (seq![d] + p.0) =~= out@ + p.0);
                    },
                    Option::None => {},
                }
            }
            i = i + 2;
        } else {
            let ghost preout = out@;
            push_char(&mut out, c);
            proof {
                match sp_str_body(s@.skip(i as int + 1)) {
                    Option::Some(p) => {
                        assert(preout + (seq![c] + p.0) =~= out@ + p.0);
                    },
                    Option::None => {},
                }
            }
            i = i + 1;
        }
    }
}


/// A successful string-body parse always consumes at least the closing
/// quote.
pub proof fn lemma_sp_body_shrinks(s: Seq<char>)
    ensures
        sp_str_body(s) matches Option::Some(p) ==> p.1.len() < s.len(),
    decreases s.len(),
{
    if s.len() == 0 {
    } else if s[0] == '"' {
    } else if s[0] == '\\' {
        if s.len() >= 2 && is_esc_code(s[1]) {
            lemma_sp_body_shrinks(s.skip(2));
        }
    } else {
        lemma_sp_body_shrinks(s.skip(1));
    }
}

/// A successful literal parse always consumes at least the two quotes.
pub proof fn lemma_sp_jstr_shrinks(s: Seq<char>)
    ensures
        sp_jstr(s) matches Option::Some(p) ==> p.1.len() < s.len(),
{
    if s.len() > 0 && s[0] == '"' {
        lemma_sp_body_shrinks(s.skip(1));
    }
}

} // verus!
