//! Character-level access to string slices.
//!
//! A `&str` is stored as UTF-8 bytes, but scanning is described over its
//! characters.  The functions here read and remove the leading character of a
//! slice and cut a slice at the point where one of its suffixes begins, each
//! in constant time and without copying; their contracts speak only of the
//! character view.

use vstd::prelude::*;
use vstd::string::StringSliceAdditionalSpecFns;
use vstd::utf8::*;

verus! {

/// What `String::push` of the standard library does, as its documentation
/// has it: it appends the character `c`, so that afterwards the string holds
/// what it held before, followed by `c`.  This is taken on trust; nothing
/// here proves it.
pub assume_specification[ std::string::String::push ](out: &mut std::string::String, c: char)
    ensures
        final(out)@ == old(out)@.push(c),
;

/// `tail` is what remains of `whole` after dropping some leading characters.
pub open spec fn is_suffix_of(tail: Seq<char>, whole: Seq<char>) -> bool {
    tail.len() <= whole.len() && tail == whole.subrange(
        whole.len() - tail.len(),
        whole.len() as int,
    )
}

/// The UTF-8 encoding of a concatenation is the concatenation of the encodings.
pub proof fn lemma_encode_concat(a: Seq<char>, b: Seq<char>)
    ensures
        encode_utf8(a + b) == encode_utf8(a) + encode_utf8(b),
    decreases a.len(),
{
    if a.len() == 0 {
        assert(a + b =~= b);
        assert(encode_utf8(a) + encode_utf8(b) =~= encode_utf8(b));
    } else {
        lemma_encode_concat(a.drop_first(), b);
        assert((a + b).drop_first() =~= a.drop_first() + b);
        assert(encode_utf8(a + b) =~= encode_utf8(a) + encode_utf8(b));
    }
}

/// Two character sequences with the same encoding are the same sequence.
pub proof fn lemma_encode_injective(a: Seq<char>, b: Seq<char>)
    requires
        encode_utf8(a) == encode_utf8(b),
    ensures
        a == b,
{
    encode_utf8_decode_utf8(a);
    encode_utf8_decode_utf8(b);
}

/// The encoding of a prefix ends on a character boundary of the whole encoding.
pub proof fn lemma_prefix_is_boundary(a: Seq<char>, b: Seq<char>)
    ensures
        is_char_boundary(encode_utf8(a + b), encode_utf8(a).len() as int),
    decreases a.len(),
{
    let whole = a + b;
    let bytes = encode_utf8(whole);
    encode_utf8_valid_utf8(whole);
    if a.len() == 0 {
    } else {
        encode_utf8_first_scalar(whole);
        assert(whole.drop_first() =~= a.drop_first() + b);
        assert(pop_first_scalar(bytes) =~= encode_utf8(whole.drop_first()));
        lemma_prefix_is_boundary(a.drop_first(), b);
        assert(whole[0] == a[0]);
        assert(encode_utf8(a).len() == encode_scalar(a[0] as u32).len() + encode_utf8(
            a.drop_first(),
        ).len());
        lemma_encode_concat(a, b);
    }
}

/// No character is encoded in fewer bytes than one.
pub proof fn lemma_encode_len(a: Seq<char>)
    ensures
        a.len() <= encode_utf8(a).len(),
    decreases a.len(),
{
    if a.len() > 0 {
        lemma_encode_len(a.drop_first());
    }
}

/// The number of bytes that the UTF-8 encoding of `c` takes.
pub fn utf8_width(c: char) -> (w: usize)
    ensures
        w == encode_scalar(c as u32).len(),
        1 <= w <= 4,
{
    let u: u32 = c as u32;
    if u < 0x80 {
        1
    } else if u < 0x800 {
        2
    } else if u < 0x10000 {
        3
    } else {
        4
    }
}

/// The number of bytes that `s` occupies.
pub fn byte_len(s: &str) -> (n: usize)
    ensures
        n == s.spec_bytes().len(),
{
    broadcast use vstd::slice::group_slice_axioms;
    s.as_bytes().len()
}

/// The first character of `s`, if it has one.
pub fn first_char(s: &str) -> (r: Option<char>)
    ensures
        r == if s@.len() > 0 { Some(s@[0]) } else { None::<char> },
{
    broadcast use vstd::string::group_string_axioms;
    let mut it = s.chars();
    it.next()
}

/// `s` without its first character `c`.
pub(crate) fn after_first<'a>(s: &'a str, c: char) -> (r: &'a str)
    requires
        s@.len() > 0,
        s@[0] == c,
    ensures
        r@ == s@.drop_first(),
{
    let w = utf8_width(c);
    proof {
        let bytes = s.spec_bytes();
        encode_utf8_first_scalar(s@);
        encode_utf8_valid_utf8(s@);
        assert(pop_first_scalar(bytes) =~= encode_utf8(s@.drop_first()));
        reveal_with_fuel(is_char_boundary, 2);
        assert(is_char_boundary(bytes, w as int));
    }
    let (_, r) = s.split_at(w);
    proof {
        lemma_encode_injective(r@, s@.drop_first());
    }
    r
}

/// The part of `whole` that precedes its suffix `tail`.
pub(crate) fn before_suffix<'a>(whole: &'a str, tail: &str) -> (r: &'a str)
    requires
        is_suffix_of(tail@, whole@),
    ensures
        r@ == whole@.subrange(0, whole@.len() - tail@.len()),
{
    let ghost head = whole@.subrange(0, whole@.len() - tail@.len());
    proof {
        assert(whole@ =~= head + tail@);
        lemma_encode_concat(head, tail@);
        lemma_prefix_is_boundary(head, tail@);
        assert(whole.spec_bytes().len() == encode_utf8(head).len() + tail.spec_bytes().len());
    }
    let cut = byte_len(whole) - byte_len(tail);
    let (r, _) = whole.split_at(cut);
    proof {
        assert(whole.spec_bytes().subrange(0, cut as int) =~= encode_utf8(head));
        lemma_encode_injective(r@, head);
    }
    r
}

/// Whether `a` and `b` hold the same characters.
pub fn same_text(a: &str, b: &str) -> (same: bool)
    ensures
        same == (a@ == b@),
{
    let mut left = a;
    let mut right = b;
    let ghost mut at: int = 0;
    proof {
        assert(a@.subrange(0, a@.len() as int) =~= a@);
        assert(b@.subrange(0, b@.len() as int) =~= b@);
    }
    loop
        invariant
            0 <= at <= a@.len(),
            at <= b@.len(),
            left@ == a@.subrange(at, a@.len() as int),
            right@ == b@.subrange(at, b@.len() as int),
            a@.subrange(0, at) == b@.subrange(0, at),
        decreases a@.len() - at,
    {
        let x = first_char(left);
        let y = first_char(right);
        match x {
            None => {
                proof {
                    if y is None {
                        assert(a@ =~= a@.subrange(0, at));
                        assert(b@ =~= b@.subrange(0, at));
                    }
                }
                return y.is_none();
            },
            Some(c) => {
                if y != Some(c) {
                    proof {
                        if y is Some {
                            assert(a@[at] != b@[at]);
                        }
                    }
                    return false;
                }
                left = after_first(left, c);
                right = after_first(right, c);
                proof {
                    assert(a@.subrange(0, at + 1) =~= a@.subrange(0, at).push(c));
                    assert(b@.subrange(0, at + 1) =~= b@.subrange(0, at).push(c));
                    assert(left@ =~= a@.subrange(at + 1, a@.len() as int));
                    assert(right@ =~= b@.subrange(at + 1, b@.len() as int));
                    at = at + 1;
                }
            },
        }
    }
}

} // verus!
