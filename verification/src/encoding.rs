//! Byte lengths of text: how many bytes a character and a run of characters
//! take in UTF-8.

use vstd::prelude::*;
use vstd::utf8::*;

verus! {

/// Number of bytes that `c` takes in UTF-8.
pub open spec fn spec_char_width(c: char) -> nat {
    encode_scalar(c as u32).len()
}

/// Number of bytes that `s` takes in UTF-8.
pub open spec fn byte_len(s: Seq<char>) -> nat {
    encode_utf8(s).len()
}

/// Whether `text` is at most `u32::MAX` bytes long, so that the length of
/// each of its tokens fits in a `u32`: what a scan asks of its input.
pub fn fits_in_u32(text: &str) -> (fits: bool)
    ensures
        fits == (byte_len(text@) <= u32::MAX),
{
    text.as_bytes().len() <= u32::MAX as usize
}

/// Number of bytes that `c` takes in UTF-8: between one and four.
pub fn char_width(c: char) -> (w: usize)
    ensures
        w == spec_char_width(c),
        1 <= w <= 4,
        (w == 1) == (c <= '\x7f'),
{
    let v: u32 = c as u32;
    if v <= 0x7F {
        1
    } else if v <= 0x7FF {
        2
    } else if v <= 0xFFFF {
        3
    } else {
        4
    }
}

/// The encoding of a text is the encoding of its first character followed
/// by the encoding of what comes after it.
pub proof fn lemma_byte_len_step(s: Seq<char>)
    requires
        s.len() > 0,
    ensures
        byte_len(s) == spec_char_width(s[0]) + byte_len(s.skip(1)),
        encode_utf8(s).subrange(spec_char_width(s[0]) as int, byte_len(s) as int) == encode_utf8(
            s.skip(1),
        ),
        is_char_boundary(encode_utf8(s), spec_char_width(s[0]) as int),
{
    let bytes = encode_utf8(s);
    let w = spec_char_width(s[0]) as int;
    assert(s.skip(1) =~= s.drop_first());
    assert(bytes.subrange(w, bytes.len() as int) =~= encode_utf8(s.skip(1)));
    encode_utf8_first_scalar(s);
    encode_utf8_valid_utf8(s);
    encode_utf8_valid_utf8(s.skip(1));
    assert(pop_first_scalar(bytes) =~= encode_utf8(s.skip(1)));
    assert(is_char_boundary(pop_first_scalar(bytes), 0));
}

/// Reading one more character of `s` adds that character's width to the
/// bytes read.
pub proof fn lemma_byte_len_take(s: Seq<char>, n: int)
    requires
        0 <= n < s.len(),
    ensures
        byte_len(s.take(n + 1)) == byte_len(s.take(n)) + spec_char_width(s[n]),
    decreases n,
{
    let t = s.take(n + 1);
    lemma_byte_len_step(t);
    if n == 0 {
        assert(t.skip(1) =~= Seq::<char>::empty());
        assert(s.take(0) =~= Seq::<char>::empty());
    } else {
        lemma_byte_len_step(s.take(n));
        lemma_byte_len_take(s.skip(1), n - 1);
        assert(s.skip(1).take(n) =~= t.skip(1));
        assert(s.skip(1).take(n - 1) =~= s.take(n).skip(1));
    }
}

/// Whether each of the first `n` characters of `s` is an ASCII character.
pub open spec fn is_ascii_prefix(s: Seq<char>, n: int) -> bool {
    forall|i: int| 0 <= i < n ==> #[trigger] s[i] <= '\x7f'
}

/// An ASCII character takes one byte.
pub proof fn lemma_ascii_width(c: char)
    requires
        c <= '\x7f',
    ensures
        spec_char_width(c) == 1,
{
}

/// ASCII characters take one byte each.
pub proof fn lemma_ascii_bytes(s: Seq<char>, n: int)
    requires
        0 <= n <= s.len(),
        is_ascii_prefix(s, n),
    ensures
        byte_len(s.take(n)) == n,
    decreases n,
{
    if n == 0 {
        assert(s.take(0) =~= Seq::<char>::empty());
    } else {
        lemma_ascii_bytes(s, n - 1);
        lemma_byte_len_take(s, n - 1);
        lemma_ascii_width(s[n - 1]);
    }
}

/// If the first `a` characters are ASCII characters, and the `b` behind
/// them too, then so are the first `a + b`.
pub proof fn lemma_ascii_prefix_extend(s: Seq<char>, a: int, b: int)
    requires
        0 <= a,
        0 <= b,
        a + b <= s.len(),
        is_ascii_prefix(s, a),
        is_ascii_prefix(s.skip(a), b),
    ensures
        is_ascii_prefix(s, a + b),
{
    assert forall|i: int| 0 <= i < a + b implies #[trigger] s[i] <= '\x7f' by {
        if i >= a {
            assert(s.skip(a)[i - a] == s[i]);
        }
    }
}

/// The encoding of a text is the encoding of its first `k` characters
/// followed by the encoding of the others, and a character starts where the
/// two meet.
pub proof fn lemma_encoding_split(s: Seq<char>, k: int)
    requires
        0 <= k <= s.len(),
    ensures
        encode_utf8(s) == encode_utf8(s.take(k)) + encode_utf8(s.skip(k)),
        byte_len(s) == byte_len(s.take(k)) + byte_len(s.skip(k)),
        is_char_boundary(encode_utf8(s), byte_len(s.take(k)) as int),
    decreases k,
{
    let bytes = encode_utf8(s);
    encode_utf8_valid_utf8(s);
    if k == 0 {
        assert(s.take(0) =~= Seq::<char>::empty());
        assert(s.skip(0) =~= s);
        assert(bytes =~= encode_utf8(s.take(0)) + encode_utf8(s.skip(0)));
    } else {
        let tail = s.skip(1);
        lemma_byte_len_step(s);
        lemma_byte_len_step(s.take(k));
        lemma_encoding_split(tail, k - 1);
        assert(tail.take(k - 1) =~= s.take(k).skip(1));
        assert(tail.skip(k - 1) =~= s.skip(k));
        assert(s.drop_first() =~= tail);
        assert(s.take(k).drop_first() =~= tail.take(k - 1));
        assert(bytes =~= encode_utf8(s.take(k)) + encode_utf8(s.skip(k)));
        encode_utf8_first_scalar(s);
        assert(pop_first_scalar(bytes) =~= encode_utf8(tail));
    }
}

/// Two texts with the same encoding are the same text.
pub proof fn lemma_encoding_injective(a: Seq<char>, b: Seq<char>)
    requires
        encode_utf8(a) == encode_utf8(b),
    ensures
        a == b,
{
    encode_utf8_decode_utf8(a);
    encode_utf8_decode_utf8(b);
}

} // verus!
