//! What an encoding tells of what was encoded.

use crate::hashing::{
    big_endian, fingerprint_of, fingerprints_bytes, flag_bytes, id_bytes, is_digest,
    is_hex_digit, text_bytes, texts_bytes, DIGEST_LENGTH,
};
use vstd::prelude::*;
use vstd::string::*;
use vstd::utf8::*;

verus! {

/// Whether each of the texts has the length of a fingerprint when encoded.
pub open spec fn have_digest_length(prints: Seq<Seq<char>>) -> bool {
    forall|i: int| 0 <= i < prints.len() ==> text_bytes(#[trigger] prints[i]).len() == DIGEST_LENGTH
}

/// A fingerprint has the shape of a digest, and its encoding has as many bytes
/// as it has digits.
pub proof fn lemma_fingerprint_is_digest(bytes: Seq<u8>)
    ensures
        is_digest(fingerprint_of(bytes)),
        text_bytes(fingerprint_of(bytes)).len() == DIGEST_LENGTH,
{
    let print = fingerprint_of(bytes);
    assert(is_digest(print));
    assert(is_ascii_chars(print)) by {
        assert forall|i: int| 0 <= i < print.len() implies '\0' <= #[trigger] print[i]
            <= '\u{7f}' by {
            assert(is_hex_digit(print[i]));
        }
    }
    is_ascii_chars_encode_utf8(print);
}

/// What follows the same start in two equal sequences is the same.
pub proof fn lemma_same_start<T>(start: Seq<T>, x: Seq<T>, y: Seq<T>)
    requires
        start + x == start + y,
    ensures
        x == y,
{
    assert((start + x).skip(start.len() as int) =~= x);
    assert((start + y).skip(start.len() as int) =~= y);
}

/// What stands before the same end in two equal sequences is the same.
pub proof fn lemma_same_end<T>(x: Seq<T>, y: Seq<T>, end: Seq<T>)
    requires
        x + end == y + end,
    ensures
        x == y,
{
    assert((x + end).len() == x.len() + end.len());
    assert((y + end).len() == y.len() + end.len());
    let n = x.len() as int;
    assert(y.len() == n);
    assert((x + end).take(n) =~= x);
    assert((y + end).take(n) =~= y);
}

/// Two texts with one encoding are one text.
pub proof fn lemma_text_bytes_tell_text(a: Seq<char>, b: Seq<char>)
    requires
        text_bytes(a) == text_bytes(b),
    ensures
        a == b,
{
    encode_utf8_decode_utf8(a);
    encode_utf8_decode_utf8(b);
}

/// The bytes of a list of fingerprints tell each fingerprint.
pub proof fn lemma_fingerprints_bytes_tell_fingerprints(a: Seq<Seq<char>>, b: Seq<Seq<char>>)
    requires
        a.len() == b.len(),
        have_digest_length(a),
        have_digest_length(b),
        fingerprints_bytes(a) == fingerprints_bytes(b),
    ensures
        a == b,
    decreases a.len(),
{
    if a.len() > 0 {
        let x = a.drop_last();
        let y = b.drop_last();
        let p = texts_bytes(x);
        let q = texts_bytes(y);
        let s = text_bytes(a.last());
        let t = text_bytes(b.last());
        assert(s.len() == DIGEST_LENGTH) by {
            assert(a[a.len() - 1] == a.last());
        }
        assert(t.len() == DIGEST_LENGTH) by {
            assert(b[b.len() - 1] == b.last());
        }
        assert(p + s == q + t);
        assert(p.len() == q.len()) by {
            assert((p + s).len() == (q + t).len());
        }
        assert(p =~= (p + s).take(p.len() as int));
        assert(q =~= (q + t).take(q.len() as int));
        assert(s =~= (p + s).skip(p.len() as int));
        assert(t =~= (q + t).skip(q.len() as int));
        lemma_text_bytes_tell_text(a.last(), b.last());
        assert(have_digest_length(x)) by {
            assert forall|i: int| 0 <= i < x.len() implies text_bytes(#[trigger] x[i]).len()
                == DIGEST_LENGTH by {
                assert(x[i] == a[i]);
            }
        }
        assert(have_digest_length(y)) by {
            assert forall|i: int| 0 <= i < y.len() implies text_bytes(#[trigger] y[i]).len()
                == DIGEST_LENGTH by {
                assert(y[i] == b[i]);
            }
        }
        lemma_fingerprints_bytes_tell_fingerprints(x, y);
        assert(a =~= x.push(a.last()));
        assert(b =~= y.push(b.last()));
    } else {
        assert(a =~= b);
    }
}

/// The bytes of as many fingerprints are as many.
pub proof fn lemma_fingerprints_bytes_len(prints: Seq<Seq<char>>)
    requires
        have_digest_length(prints),
    ensures
        fingerprints_bytes(prints).len() == DIGEST_LENGTH * prints.len(),
    decreases prints.len(),
{
    if prints.len() > 0 {
        let rest = prints.drop_last();
        assert(have_digest_length(rest)) by {
            assert forall|i: int| 0 <= i < rest.len() implies text_bytes(#[trigger] rest[i]).len()
                == DIGEST_LENGTH by {
                assert(rest[i] == prints[i]);
            }
        }
        lemma_fingerprints_bytes_len(rest);
        assert(prints[prints.len() - 1] == prints.last());
    }
}

/// Joining sequences does not depend on how they are grouped.
pub proof fn lemma_join_regroups<T>(x: Seq<T>, y: Seq<T>, z: Seq<T>)
    ensures
        (x + y) + z == x + (y + z),
{
    assert((x + y) + z =~= x + (y + z));
}

/// Eight sequences joined from the left are the first joined to the rest.
pub proof fn lemma_join_of_eight<T>(
    p1: Seq<T>,
    p2: Seq<T>,
    p3: Seq<T>,
    p4: Seq<T>,
    p5: Seq<T>,
    p6: Seq<T>,
    p7: Seq<T>,
    p8: Seq<T>,
)
    ensures
        p1 + p2 + p3 + p4 + p5 + p6 + p7 + p8 == p1 + (p2 + (p3 + (p4 + (p5 + (p6 + (p7
            + p8)))))),
{
    lemma_join_regroups(p1 + p2 + p3 + p4 + p5 + p6, p7, p8);
    lemma_join_regroups(p1 + p2 + p3 + p4 + p5, p6, p7 + p8);
    lemma_join_regroups(p1 + p2 + p3 + p4, p5, p6 + (p7 + p8));
    lemma_join_regroups(p1 + p2 + p3, p4, p5 + (p6 + (p7 + p8)));
    lemma_join_regroups(p1 + p2, p3, p4 + (p5 + (p6 + (p7 + p8))));
    lemma_join_regroups(p1, p2, p3 + (p4 + (p5 + (p6 + (p7 + p8)))));
}

/// Two equal sequences that start with parts of one length have the same
/// parts and the same rest.
pub proof fn lemma_same_length_split<T>(x: Seq<T>, rest_x: Seq<T>, y: Seq<T>, rest_y: Seq<T>)
    requires
        x.len() == y.len(),
        x + rest_x == y + rest_y,
    ensures
        x == y,
        rest_x == rest_y,
{
    let n = x.len() as int;
    assert((x + rest_x).take(n) =~= x);
    assert((y + rest_y).take(n) =~= y);
    assert((x + rest_x).skip(n) =~= rest_x);
    assert((y + rest_y).skip(n) =~= rest_y);
}

/// The number of values that fit into so many bytes.
pub open spec fn byte_limit(width: nat) -> nat
    decreases width,
{
    if width == 0 {
        1
    } else {
        256 * byte_limit((width - 1) as nat)
    }
}

/// So many bytes of a value are so many.
pub proof fn lemma_big_endian_len(value: nat, width: nat)
    ensures
        big_endian(value, width).len() == width,
    decreases width,
{
    if width > 0 {
        lemma_big_endian_len(value / 256, (width - 1) as nat);
    }
}

/// The bytes of a value that fits into them tell the value.
pub proof fn lemma_big_endian_tells_value(a: nat, b: nat, width: nat)
    requires
        a < byte_limit(width),
        b < byte_limit(width),
        big_endian(a, width) == big_endian(b, width),
    ensures
        a == b,
    decreases width,
{
    if width > 0 {
        let x = big_endian(a / 256, (width - 1) as nat);
        let y = big_endian(b / 256, (width - 1) as nat);
        let low_a = (a % 256) as u8;
        let low_b = (b % 256) as u8;
        assert(x.push(low_a) == y.push(low_b));
        assert(x =~= x.push(low_a).drop_last());
        assert(y =~= y.push(low_b).drop_last());
        assert(low_a == x.push(low_a).last());
        assert(low_b == y.push(low_b).last());
        lemma_big_endian_tells_value(a / 256, b / 256, (width - 1) as nat);
    }
}

/// The bytes of an identifier tell the identifier.
pub proof fn lemma_id_bytes_tell_id(a: u128, b: u128)
    requires
        id_bytes(a) == id_bytes(b),
    ensures
        a == b,
{
    assert(byte_limit(16) == 0x1_0000_0000_0000_0000_0000_0000_0000_0000) by {
        reveal_with_fuel(byte_limit, 17);
    }
    lemma_big_endian_tells_value(a as nat, b as nat, 16);
}

/// The bytes of the two flags.
pub proof fn lemma_flag_bytes()
    ensures
        flag_bytes(true) == seq![116u8, 114u8, 117u8, 101u8],
        flag_bytes(false) == seq![102u8, 97u8, 108u8, 115u8, 101u8],
{
    reveal_strlit("true");
    reveal_strlit("false");
    is_ascii_chars_encode_utf8("true"@);
    is_ascii_chars_encode_utf8("false"@);
    assert(flag_bytes(true) =~= seq![116u8, 114u8, 117u8, 101u8]) by {
        let e = encode_utf8("true"@);
        assert(e[0] == "true"@[0] as u8);
        assert(e[1] == "true"@[1] as u8);
        assert(e[2] == "true"@[2] as u8);
        assert(e[3] == "true"@[3] as u8);
    }
    assert(flag_bytes(false) =~= seq![102u8, 97u8, 108u8, 115u8, 101u8]) by {
        let e = encode_utf8("false"@);
        assert(e[0] == "false"@[0] as u8);
        assert(e[1] == "false"@[1] as u8);
        assert(e[2] == "false"@[2] as u8);
        assert(e[3] == "false"@[3] as u8);
        assert(e[4] == "false"@[4] as u8);
    }
}

/// A text followed by a mark and a flag tells the text and the flag.
pub proof fn lemma_text_and_flag(
    a: Seq<char>,
    flag_a: bool,
    b: Seq<char>,
    flag_b: bool,
    mark: Seq<u8>,
)
    requires
        text_bytes(a) + (mark + flag_bytes(flag_a)) == text_bytes(b) + (mark + flag_bytes(flag_b)),
    ensures
        a == b,
        flag_a == flag_b,
{
    lemma_flag_bytes();
    let x = text_bytes(a) + (mark + flag_bytes(flag_a));
    let y = text_bytes(b) + (mark + flag_bytes(flag_b));
    let n = x.len() as int;
    if flag_a != flag_b {
        if flag_a {
            assert(x[n - 4] == flag_bytes(true)[0]);
            assert(y[n - 4] == flag_bytes(false)[1]);
        } else {
            assert(x[n - 4] == flag_bytes(false)[1]);
            assert(y[n - 4] == flag_bytes(true)[0]);
        }
    } else {
        assert(x =~= text_bytes(a) + mark + flag_bytes(flag_a));
        assert(y =~= text_bytes(b) + mark + flag_bytes(flag_a));
        lemma_same_end(text_bytes(a) + mark, text_bytes(b) + mark, flag_bytes(flag_a));
        lemma_same_end(text_bytes(a), text_bytes(b), mark);
        lemma_text_bytes_tell_text(a, b);
    }
}

} // verus!
