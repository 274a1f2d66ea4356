//! The block permutation that hides a chart inside its URL.
//!
//! The text is cut into blocks of fifty characters. In each full block the
//! first five characters change places with the last five, mirrored, and so
//! do the characters at positions 10 to 23 with those at 26 to 39. A shorter
//! last block is left as it is. The permutation is its own inverse, so one
//! function both scrambles and descrambles.

use vstd::prelude::*;
use crate::text::{from_chars, to_chars, write_range};

verus! {

/// The number of characters in a block.
pub const BLOCK: usize = 50;

/// Whether the character at position `k` of a block changes places with the
/// one at `49 - k`.
pub open spec fn mirrored(k: int) -> bool {
    0 <= k < 5 || 10 <= k < 24 || 26 <= k < 40 || 45 <= k < 50
}

/// The position in the scrambled block of the character that belongs at `k`.
pub open spec fn partner(k: int) -> int {
    if mirrored(k) {
        49 - k
    } else {
        k
    }
}

/// The permutation of one block of fifty characters.
pub open spec fn permute_block(b: Seq<char>) -> Seq<char>
    recommends
        b.len() == 50,
{
    Seq::new(50, |k: int| b[partner(k)])
}

/// The permutation applied to each full block of `s`, the rest unchanged.
pub open spec fn descramble_text(s: Seq<char>) -> Seq<char>
    decreases s.len(),
{
    if s.len() < 50 {
        s
    } else {
        permute_block(s.take(50)) + descramble_text(s.skip(50))
    }
}

/// Permuting a block twice gives the block back.
pub proof fn lemma_permute_block_involution(b: Seq<char>)
    requires
        b.len() == 50,
    ensures
        permute_block(permute_block(b)) == b,
{
    assert forall|k: int| 0 <= k < 50 implies permute_block(permute_block(b))[k] == b[k] by {
        assert(partner(partner(k)) == k);
    }
    assert(permute_block(permute_block(b)) =~= b);
}

/// Descrambling keeps the length of the text.
pub proof fn lemma_descramble_len(s: Seq<char>)
    ensures
        descramble_text(s).len() == s.len(),
    decreases s.len(),
{
    if s.len() >= 50 {
        lemma_descramble_len(s.skip(50));
    }
}

/// Descrambling is an involution: applied twice to any text, and so to any
/// block of fifty characters, it gives the text back.
pub proof fn lemma_descramble_involution(s: Seq<char>)
    ensures
        descramble_text(descramble_text(s)) == s,
    decreases s.len(),
{
    if s.len() >= 50 {
        let head = permute_block(s.take(50));
        let tail = descramble_text(s.skip(50));
        let d = descramble_text(s);
        lemma_descramble_len(s.skip(50));
        lemma_descramble_involution(s.skip(50));
        lemma_permute_block_involution(s.take(50));
        assert(d.take(50) =~= head);
        assert(d.skip(50) =~= tail);
        assert(s.take(50) + s.skip(50) =~= s);
    }
}

/// On a text of exactly fifty characters descrambling is the block
/// permutation, and descrambling the result restores the text.
pub proof fn lemma_descramble_block(b: Seq<char>)
    requires
        b.len() == 50,
    ensures
        descramble_text(b) == permute_block(b),
        descramble_text(descramble_text(b)) == b,
{
    assert(b.take(50) =~= b);
    assert(b.skip(50) =~= Seq::<char>::empty());
    assert(descramble_text(b.skip(50)) =~= Seq::<char>::empty());
    assert(permute_block(b) + Seq::<char>::empty() =~= permute_block(b));
    lemma_descramble_involution(b);
}

/// The position in a scrambled block of the character that belongs at `k`.
fn partner_of(k: usize) -> (p: usize)
    requires
        k < 50,
    ensures
        p == partner(k as int),
        p < 50,
{
    if k < 5 || (10 <= k && k < 24) || (26 <= k && k < 40) || 45 <= k {
        49 - k
    } else {
        k
    }
}

/// Appends to `out` the permutation of the block of `chars` that begins at
/// `start`.
fn write_block(out: &mut Vec<char>, chars: &Vec<char>, start: usize)
    requires
        start + 50 <= chars.len(),
    ensures
        final(out)@ == old(out)@ + permute_block(chars@.subrange(start as int, start + 50)),
{
    let ghost before = out@;
    let ghost block = chars@.subrange(start as int, start + 50);
    let mut k: usize = 0;
    while k < BLOCK
        invariant
            k <= 50,
            start + 50 <= chars.len(),
            block == chars@.subrange(start as int, start + 50),
            out@ == before + permute_block(block).take(k as int),
        decreases 50 - k,
    {
        let p = partner_of(k);
        out.push(chars[start + p]);
        assert(out@ =~= before + permute_block(block).take(k + 1));
        k += 1;
    }
    assert(permute_block(block).take(50) =~= permute_block(block));
}

/// Permutes one block of fifty characters.
pub fn obfusc50(text: &str) -> (r: String)
    requires
        text@.len() == 50,
    ensures
        r@ == permute_block(text@),
{
    let chars = to_chars(text);
    let mut out: Vec<char> = Vec::new();
    write_block(&mut out, &chars, 0);
    assert(chars@.subrange(0, 50) =~= chars@);
    from_chars(&out)
}

/// Descrambles the characters of `chars` from position `from` on.
pub(crate) fn descramble_chars(chars: &Vec<char>, from: usize) -> (out: Vec<char>)
    requires
        from <= chars.len(),
    ensures
        out@ == descramble_text(chars@.skip(from as int)),
{
    let ghost text = chars@.skip(from as int);
    let mut out: Vec<char> = Vec::new();
    let mut i: usize = from;
    assert(text.skip(0) =~= text);
    while chars.len() - i >= BLOCK
        invariant
            from <= i <= chars.len(),
            text == chars@.skip(from as int),
            descramble_text(text) == out@ + descramble_text(text.skip(i - from)),
        decreases chars.len() - i,
    {
        let ghost rest = text.skip(i - from);
        write_block(&mut out, chars, i);
        proof {
            assert(rest.take(50) =~= chars@.subrange(i as int, i + 50));
            assert(rest.skip(50) =~= text.skip(i + 50 - from));
        }
        i += BLOCK;
    }
    assert(text.skip(i - from) =~= chars@.subrange(i as int, chars@.len() as int));
    write_range(&mut out, chars, i, chars.len());
    out
}

/// Descrambles a chart, or scrambles one: permutes each full block of fifty
/// characters and leaves a shorter last block as it is.
pub fn unscramble(text: &str) -> (r: String)
    ensures
        r@ == descramble_text(text@),
        r@.len() == text@.len(),
{
    let chars = to_chars(text);
    let out = descramble_chars(&chars, 0);
    proof {
        assert(chars@.skip(0) =~= chars@);
        lemma_descramble_len(text@);
    }
    from_chars(&out)
}

} // verus!
