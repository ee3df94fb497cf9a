//! A hash of a list of texts that is the same in every run and on every
//! machine: FNV-1a over the code points, on 64 bits.
use crate::text::texts;
use vstd::prelude::*;

verus! {

/// Where the hash of a list of texts starts.
pub const HASH_START: u64 = 0xcbf2_9ce4_8422_2325;

/// The factor by which each step of the hash multiplies.
pub const HASH_FACTOR: u64 = 0x0000_0100_0000_01b3;

/// The value that closes a text within a list: no character has it.
pub const HASH_END_OF_TEXT: u64 = 0x11_0000;

/// One step of the hash: the value is mixed in, then the whole is
/// multiplied, all within 64 bits.
pub open spec fn hash_step(h: u64, value: u64) -> u64 {
    (h ^ value).wrapping_mul(HASH_FACTOR)
}

/// The hash after the characters of `text`, one step for each code point.
pub open spec fn hash_text(h: u64, text: Seq<char>) -> u64
    decreases text.len(),
{
    if text.len() == 0 {
        h
    } else {
        hash_step(hash_text(h, text.drop_last()), text.last() as u64)
    }
}

/// The hash of a list of texts: the texts in order, each followed by a
/// closing step. The order of the texts counts.
pub open spec fn hash_texts(items: Seq<Seq<char>>) -> u64
    decreases items.len(),
{
    if items.len() == 0 {
        HASH_START
    } else {
        hash_step(hash_text(hash_texts(items.drop_last()), items.last()), HASH_END_OF_TEXT)
    }
}

/// Hashes a list of texts.
pub fn hash_list(items: &Vec<Vec<char>>) -> (h: u64)
    ensures
        h == hash_texts(texts(items@)),
{
    let ghost all = texts(items@);
    let mut h: u64 = HASH_START;
    let mut i: usize = 0;
    assert(all.take(0) =~= Seq::<Seq<char>>::empty());
    while i < items.len()
        invariant
            i <= items.len(),
            all == texts(items@),
            h == hash_texts(all.take(i as int)),
        decreases items.len() - i,
    {
        let item = &items[i];
        let mut k: usize = 0;
        let ghost start = h;
        assert(item@.take(0) =~= Seq::<char>::empty());
        while k < item.len()
            invariant
                k <= item.len(),
                h == hash_text(start, item@.take(k as int)),
            decreases item.len() - k,
        {
            assert(item@.take(k + 1).drop_last() =~= item@.take(k as int));
            h = (h ^ (item[k] as u64)).wrapping_mul(HASH_FACTOR);
            k += 1;
        }
        assert(item@.take(item.len() as int) =~= item@);
        h = (h ^ HASH_END_OF_TEXT).wrapping_mul(HASH_FACTOR);
        proof {
            assert(all.take(i + 1).drop_last() =~= all.take(i as int));
            assert(all.take(i + 1).last() == item@);
        }
        i += 1;
    }
    assert(all.take(items.len() as int) =~= all);
    h
}

} // verus!
