//! The deterministic content-identifier generator: a canonical string from
//! title, description, creator and creation time is digested, the first
//! four digest bytes are read as a big-endian number, and the number is
//! rendered in a 36-symbol lowercase alphabet, padded or truncated to six
//! symbols. Identical inputs always yield the identical id.

use crate::hashing::{sha256_of, sha256_str};
use crate::num::dec_int;
use crate::text::push_char;
use vstd::prelude::*;

verus! {

/// The big-endian value of a byte string.
pub open spec fn be_val(bs: Seq<u8>) -> nat
    decreases bs.len(),
{
    if bs.len() == 0 {
        0
    } else {
        (be_val(bs.drop_last()) * 256 + bs.last()) as nat
    }
}

pub open spec fn pow256(n: nat) -> nat
    decreases n,
{
    if n == 0 {
        1nat
    } else {
        256 * pow256((n - 1) as nat)
    }
}

pub open spec fn char36(d: int) -> char {
    if d < 10 {
        crate::num::dec_digit(d)
    } else if d == 10 {
        'a'
    } else if d == 11 {
        'b'
    } else if d == 12 {
        'c'
    } else if d == 13 {
        'd'
    } else if d == 14 {
        'e'
    } else if d == 15 {
        'f'
    } else if d == 16 {
        'g'
    } else if d == 17 {
        'h'
    } else if d == 18 {
        'i'
    } else if d == 19 {
        'j'
    } else if d == 20 {
        'k'
    } else if d == 21 {
        'l'
    } else if d == 22 {
        'm'
    } else if d == 23 {
        'n'
    } else if d == 24 {
        'o'
    } else if d == 25 {
        'p'
    } else if d == 26 {
        'q'
    } else if d == 27 {
        'r'
    } else if d == 28 {
        's'
    } else if d == 29 {
        't'
    } else if d == 30 {
        'u'
    } else if d == 31 {
        'v'
    } else if d == 32 {
        'w'
    } else if d == 33 {
        'x'
    } else if d == 34 {
        'y'
    } else {
        'z'
    }
}

/// The base-36 digits of `n`, most significant first; zero has none.
pub open spec fn digits36(n: nat) -> Seq<char>
    decreases n,
{
    if n == 0 {
        Seq::<char>::empty()
    } else {
        digits36(n / 36).push(char36((n % 36) as int))
    }
}

/// The rendering of `n` in the 36-symbol alphabet at exactly `len`
/// symbols: left-padded with the zero symbol when short, keeping the least
/// significant symbols when long.
pub open spec fn base36_str(n: nat, len: nat) -> Seq<char> {
    let ds = digits36(n);
    if ds.len() < len {
        Seq::<char>::new((len - ds.len()) as nat, |i: int| '0') + ds
    } else {
        ds.skip(ds.len() - len)
    }
}

/// The rendering always has exactly the asked-for width.
pub proof fn lemma_base36_len(n: nat, len: nat)
    ensures
        base36_str(n, len).len() == len,
{
}

proof fn lemma_be_val_bound(bs: Seq<u8>)
    ensures
        be_val(bs) < pow256(bs.len()),
    decreases bs.len(),
{
    if bs.len() > 0 {
        lemma_be_val_bound(bs.drop_last());
        assert(be_val(bs.drop_last()) <= pow256((bs.len() - 1) as nat) - 1);
        assert(be_val(bs.drop_last()) * 256 <= (pow256((bs.len() - 1) as nat) - 1) * 256)
            by (nonlinear_arith)
            requires
                be_val(bs.drop_last()) <= pow256((bs.len() - 1) as nat) - 1,
        ;
    }
}

/// Appends the base-36 digits of `n`, most significant first.
fn push_digits36(out: &mut String, n: u128)
    ensures
        final(out)@ == old(out)@ + digits36(n as nat),
    decreases n,
{
    if n == 0 {
        proof {
            assert(old(out)@ + digits36(0) =~= old(out)@);
        }
    } else {
        push_digits36(out, n / 36);
        let d = (n % 36) as u8;
        if d == 0 {
            push_char(out, '0');
        } else if d == 1 {
            push_char(out, '1');
        } else if d == 2 {
            push_char(out, '2');
        } else if d == 3 {
            push_char(out, '3');
        } else if d == 4 {
            push_char(out, '4');
        } else if d == 5 {
            push_char(out, '5');
        } else if d == 6 {
            push_char(out, '6');
        } else if d == 7 {
            push_char(out, '7');
        } else if d == 8 {
            push_char(out, '8');
        } else if d == 9 {
            push_char(out, '9');
        } else if d == 10 {
            push_char(out, 'a');
        } else if d == 11 {
            push_char(out, 'b');
        } else if d == 12 {
            push_char(out, 'c');
        } else if d == 13 {
            push_char(out, 'd');
        } else if d == 14 {
            push_char(out, 'e');
        } else if d == 15 {
            push_char(out, 'f');
        } else if d == 16 {
            push_char(out, 'g');
        } else if d == 17 {
            push_char(out, 'h');
        } else if d == 18 {
            push_char(out, 'i');
        } else if d == 19 {
            push_char(out, 'j');
        } else if d == 20 {
            push_char(out, 'k');
        } else if d == 21 {
            push_char(out, 'l');
        } else if d == 22 {
            push_char(out, 'm');
        } else if d == 23 {
            push_char(out, 'n');
        } else if d == 24 {
            push_char(out, 'o');
        } else if d == 25 {
            push_char(out, 'p');
        } else if d == 26 {
            push_char(out, 'q');
        } else if d == 27 {
            push_char(out, 'r');
        } else if d == 28 {
            push_char(out, 's');
        } else if d == 29 {
            push_char(out, 't');
        } else if d == 30 {
            push_char(out, 'u');
        } else if d == 31 {
            push_char(out, 'v');
        } else if d == 32 {
            push_char(out, 'w');
        } else if d == 33 {
            push_char(out, 'x');
        } else if d == 34 {
            push_char(out, 'y');
        } else {
            push_char(out, 'z');
        }
        proof {
            assert((old(out)@ + digits36((n / 36) as nat)).push(char36((n % 36) as int)) =~= old(
                out,
            )@ + digits36(n as nat));
        }
    }
}

/// Renders a big-endian byte string in the 36-symbol alphabet at exactly
/// `length` symbols, as [`base36_str`] describes.
pub fn encode_base36(data: &[u8], length: usize) -> (r: String)
    requires
        data@.len() <= 16,
    ensures
        r@ == base36_str(be_val(data@), length as nat),
        r@.len() == length,
{
    let mut num: u128 = 0;
    let mut i: usize = 0;
    proof {
        assert(data@.take(0) =~= Seq::<u8>::empty());
    }
    while i < data.len()
        invariant
            data@.len() <= 16,
            i <= data@.len(),
            num as nat == be_val(data@.take(i as int)),
        decreases data@.len() - i,
    {
        proof {
            lemma_be_val_bound(data@.take(i as int));
            assert(pow256(data@.take(i as int).len()) <= pow256(15)) by {
                lemma_pow256_mono(data@.take(i as int).len(), 15);
            }
            assert(pow256(15) == 0x1000000000000000000000000000000) by {
                reveal_with_fuel(pow256, 16);
            }
            assert(data@.take(i + 1).drop_last() =~= data@.take(i as int));
            assert(data@.take(i + 1).last() == data@[i as int]);
        }
        let b = data[i];
        num = num * 256 + (b as u128);
        i = i + 1;
    }
    proof {
        assert(data@.take(data@.len() as int) =~= data@);
    }
    let mut ds = String::new();
    push_digits36(&mut ds, num);
    let dlen = ds.unicode_len();
    let mut out = String::new();
    if dlen < length {
        let pad = length - dlen;
        let mut k: usize = 0;
        while k < pad
            invariant
                k <= pad,
                out@ =~= Seq::<char>::new(k as nat, |i: int| '0'),
            decreases pad - k,
        {
            push_char(&mut out, '0');
            proof {
                assert(out@ =~= Seq::<char>::new((k + 1) as nat, |i: int| '0'));
            }
            k = k + 1;
        }
        out.append(ds.as_str());
        proof {
            assert(out@ =~= base36_str(num as nat, length as nat));
        }
    } else {
        let start = dlen - length;
        let mut k: usize = start;
        while k < dlen
            invariant
                ds@.len() == dlen,
                start == dlen - length,
                start <= k <= dlen,
                out@ =~= ds@.subrange(start as int, k as int),
            decreases dlen - k,
        {
            push_char(&mut out, ds.get_char(k));
            proof {
                assert(out@ =~= ds@.subrange(start as int, k + 1));
            }
            k = k + 1;
        }
        proof {
            assert(ds@.subrange(start as int, dlen as int) =~= ds@.skip(ds@.len() - length));
        }
    }
    out
}

proof fn lemma_pow256_mono(a: nat, b: nat)
    requires
        a <= b,
    ensures
        pow256(a) <= pow256(b),
    decreases b,
{
    if a < b {
        lemma_pow256_mono(a, (b - 1) as nat);
        assert(pow256((b - 1) as nat) <= 256 * pow256((b - 1) as nat)) by (nonlinear_arith)
            requires
                pow256((b - 1) as nat) >= 0,
        ;
    }
}

/// The canonical content string an id is derived from: title, description,
/// creator, nanosecond timestamp and the reserved zero nonce, separated by
/// vertical bars.
pub open spec fn id_content(
    title: Seq<char>,
    description: Seq<char>,
    creator: Seq<char>,
    created_at_nanos: int,
) -> Seq<char> {
    title + seq!['|'] + description + seq!['|'] + creator + seq!['|'] + dec_int(created_at_nanos)
        + seq!['|', '0']
}

/// The id derived from record content: six base-36 symbols of the first
/// four digest bytes.
pub open spec fn id_of(
    title: Seq<char>,
    description: Seq<char>,
    created_at_nanos: int,
    creator: Seq<char>,
) -> Seq<char> {
    base36_str(be_val(sha256_of(id_content(title, description, creator, created_at_nanos)).take(4)), 6)
}

/// Derives the deterministic short id of a record from its content.
pub fn generate_hash_id(title: &str, description: &str, created_at_nanos: i64, creator: &str) -> (r:
    String)
    ensures
        r@ == id_of(title@, description@, created_at_nanos as int, creator@),
        r@.len() == 6,
{
    let mut content = String::new();
    content.append(title);
    push_char(&mut content, '|');
    content.append(description);
    push_char(&mut content, '|');
    content.append(creator);
    push_char(&mut content, '|');
    crate::num::push_dec_i64(&mut content, created_at_nanos);
    push_char(&mut content, '|');
    push_char(&mut content, '0');
    proof {
        assert(content@ =~= id_content(
            title@,
            description@,
            creator@,
            created_at_nanos as int,
        ));
    }
    let digest = sha256_str(content.as_str());
    let mut four: Vec<u8> = Vec::new();
    four.push(digest[0]);
    four.push(digest[1]);
    four.push(digest[2]);
    four.push(digest[3]);
    proof {
        assert(four@ =~= digest@.take(4));
    }
    encode_base36(four.as_slice(), 6)
}

/// The generator is deterministic: the id is a function of title,
/// description, creator and timestamp alone, and always six symbols wide.
pub proof fn lemma_id_deterministic(
    title: Seq<char>,
    description: Seq<char>,
    created_at_nanos: int,
    creator: Seq<char>,
)
    ensures
        id_of(title, description, created_at_nanos, creator) == id_of(
            title,
            description,
            created_at_nanos,
            creator,
        ),
        id_of(title, description, created_at_nanos, creator).len() == 6,
{
    lemma_base36_len(
        be_val(sha256_of(id_content(title, description, creator, created_at_nanos)).take(4)),
        6,
    );
}

} // verus!
