//! Sorting texts in the order of `str`.
use crate::text::{
    chars_le, lemma_text_le_antisymmetric, lemma_text_le_reflexive, lemma_text_le_total,
    lemma_text_le_transitive, slice_chars, text_le, texts,
};
use vstd::prelude::*;

verus! {

/// `sorted` with `item` put behind the last text that does not come after
/// it.
pub open spec fn with_text_inserted(sorted: Seq<Seq<char>>, item: Seq<char>) -> Seq<Seq<char>>
    decreases sorted.len(),
{
    if sorted.len() == 0 {
        seq![item]
    } else if text_le(sorted.last(), item) {
        sorted.push(item)
    } else {
        with_text_inserted(sorted.drop_last(), item).push(sorted.last())
    }
}

/// The texts in the order of `str`, from the least to the greatest.
pub open spec fn sorted_texts(items: Seq<Seq<char>>) -> Seq<Seq<char>>
    decreases items.len(),
{
    if items.len() == 0 {
        Seq::empty()
    } else {
        with_text_inserted(sorted_texts(items.drop_last()), items.last())
    }
}

/// Each text of the row comes before or equals those behind it.
pub open spec fn texts_ascending(items: Seq<Seq<char>>) -> bool {
    forall|i: int, j: int| 0 <= i < j < items.len() ==> text_le(items[i], items[j])
}

/// Inserting into an ascending row leaves it ascending, with the same texts
/// and the new one.
pub proof fn lemma_with_text_inserted(sorted: Seq<Seq<char>>, item: Seq<char>)
    requires
        texts_ascending(sorted),
    ensures
        texts_ascending(with_text_inserted(sorted, item)),
        with_text_inserted(sorted, item).to_multiset() == sorted.to_multiset().insert(item),
    decreases sorted.len(),
{
    let next = with_text_inserted(sorted, item);
    sorted.to_multiset_ensures();
    if sorted.len() == 0 {
        assert(next =~= sorted.push(item));
    } else if text_le(sorted.last(), item) {
        assert forall|i: int, j: int| 0 <= i < j < next.len() implies text_le(next[i], next[j]) by {
            if j == sorted.len() {
                if i < sorted.len() - 1 {
                    assert(text_le(sorted[i], sorted[sorted.len() - 1]));
                    lemma_text_le_transitive(sorted[i], sorted.last(), item);
                }
            } else {
                assert(text_le(sorted[i], sorted[j]));
            }
        }
    } else {
        let front = sorted.drop_last();
        let last = sorted.last();
        assert forall|i: int, j: int| 0 <= i < j < front.len() implies text_le(
            front[i],
            front[j],
        ) by {
            assert(text_le(sorted[i], sorted[j]));
        }
        lemma_with_text_inserted(front, item);
        let inner = with_text_inserted(front, item);
        inner.to_multiset_ensures();
        front.to_multiset_ensures();
        assert(sorted =~= front.push(last));
        assert(next.to_multiset() =~= sorted.to_multiset().insert(item));
        lemma_text_le_total(last, item);
        assert forall|i: int, j: int| 0 <= i < j < next.len() implies text_le(next[i], next[j]) by {
            if j == inner.len() {
                let x = inner[i];
                assert(inner.contains(x));
                assert(inner.to_multiset().count(x) > 0);
                if x != item {
                    assert(front.to_multiset().count(x) > 0);
                    assert(front.contains(x));
                    let k = choose|k: int| 0 <= k < front.len() && front[k] == x;
                    assert(text_le(sorted[k], sorted[sorted.len() - 1]));
                }
            } else {
                assert(next[i] == inner[i] && next[j] == inner[j]);
            }
        }
    }
}

/// Sorting puts texts in ascending order and neither adds nor loses one.
pub proof fn lemma_sorted_texts(items: Seq<Seq<char>>)
    ensures
        texts_ascending(sorted_texts(items)),
        sorted_texts(items).to_multiset() == items.to_multiset(),
    decreases items.len(),
{
    if items.len() > 0 {
        let front = items.drop_last();
        lemma_sorted_texts(front);
        lemma_with_text_inserted(sorted_texts(front), items.last());
        front.to_multiset_ensures();
        assert(items =~= front.push(items.last()));
    } else {
        assert(sorted_texts(items) =~= items);
    }
}

/// There is one ascending row of given texts: two ascending rows that hold
/// the same texts equally often are the same row.
pub proof fn lemma_ascending_unique(a: Seq<Seq<char>>, b: Seq<Seq<char>>)
    requires
        texts_ascending(a),
        texts_ascending(b),
        a.to_multiset() == b.to_multiset(),
    ensures
        a == b,
    decreases a.len(),
{
    a.to_multiset_ensures();
    b.to_multiset_ensures();
    if a.len() == 0 {
        assert(a =~= b);
    } else {
        let la = a.last();
        let lb = b.last();
        assert(a[a.len() - 1] == la);
        assert(a.contains(la));
        assert(a.to_multiset().count(la) > 0);
        assert(b.to_multiset().count(la) > 0);
        assert(b.contains(la));
        let j = choose|j: int| 0 <= j < b.len() && b[j] == la;
        if j < b.len() - 1 {
            assert(text_le(b[j], b[b.len() - 1]));
        } else {
            lemma_text_le_reflexive(la);
        }
        assert(b[b.len() - 1] == lb);
        assert(b.contains(lb));
        assert(b.to_multiset().count(lb) > 0);
        assert(a.to_multiset().count(lb) > 0);
        assert(a.contains(lb));
        let i = choose|i: int| 0 <= i < a.len() && a[i] == lb;
        if i < a.len() - 1 {
            assert(text_le(a[i], a[a.len() - 1]));
        } else {
            lemma_text_le_reflexive(lb);
        }
        lemma_text_le_antisymmetric(la, lb);
        let fa = a.drop_last();
        let fb = b.drop_last();
        assert(fa =~= a.remove(a.len() - 1));
        assert(fb =~= b.remove(b.len() - 1));
        assert(fa.to_multiset() =~= a.to_multiset().remove(la));
        assert(fb.to_multiset() =~= b.to_multiset().remove(lb));
        assert forall|x: int, y: int| 0 <= x < y < fa.len() implies text_le(fa[x], fa[y]) by {
            assert(text_le(a[x], a[y]));
        }
        assert forall|x: int, y: int| 0 <= x < y < fb.len() implies text_le(fb[x], fb[y]) by {
            assert(text_le(b[x], b[y]));
        }
        lemma_ascending_unique(fa, fb);
        assert(a =~= fa.push(la));
        assert(b =~= fb.push(lb));
    }
}

/// Sorting does not care in which order the texts are given.
pub proof fn lemma_sorted_texts_order_free(x: Seq<Seq<char>>, y: Seq<Seq<char>>)
    requires
        x.to_multiset() == y.to_multiset(),
    ensures
        sorted_texts(x) == sorted_texts(y),
{
    lemma_sorted_texts(x);
    lemma_sorted_texts(y);
    lemma_ascending_unique(sorted_texts(x), sorted_texts(y));
}

/// Putting the rest back behind the new text gives the same as inserting
/// into the whole, as long as the rest comes after it.
proof fn lemma_text_insert_behind(sorted: Seq<Seq<char>>, item: Seq<char>, j: int)
    requires
        0 <= j <= sorted.len(),
        forall|k: int| j <= k < sorted.len() ==> !text_le(#[trigger] sorted[k], item),
    ensures
        with_text_inserted(sorted, item) == with_text_inserted(sorted.take(j), item) + sorted.skip(
            j,
        ),
    decreases sorted.len() - j,
{
    if j == sorted.len() {
        assert(sorted.take(j) =~= sorted);
        assert(with_text_inserted(sorted, item) + sorted.skip(j) =~= with_text_inserted(
            sorted,
            item,
        ));
    } else {
        let front = sorted.drop_last();
        assert(!text_le(sorted[sorted.len() - 1], item));
        assert forall|k: int| j <= k < front.len() implies !text_le(#[trigger] front[k], item) by {
            assert(front[k] == sorted[k]);
        }
        lemma_text_insert_behind(front, item, j);
        assert(front.take(j) =~= sorted.take(j));
        assert(front.skip(j).push(sorted.last()) =~= sorted.skip(j));
        assert(with_text_inserted(sorted, item) =~= with_text_inserted(sorted.take(j), item)
            + sorted.skip(j));
    }
}

/// Sorts texts in the order of `str`.
pub fn sort_texts(items: &Vec<Vec<char>>) -> (sorted: Vec<Vec<char>>)
    ensures
        texts(sorted@) == sorted_texts(texts(items@)),
{
    let mut sorted: Vec<Vec<char>> = Vec::new();
    let ghost all = texts(items@);
    let mut n: usize = 0;
    assert(all.take(0) =~= Seq::<Seq<char>>::empty());
    assert(texts(sorted@) =~= Seq::<Seq<char>>::empty());
    while n < items.len()
        invariant
            n <= items.len(),
            all == texts(items@),
            texts(sorted@) == sorted_texts(all.take(n as int)),
        decreases items.len() - n,
    {
        let item = &items[n];
        let ghost before = texts(sorted@);
        let mut j: usize = sorted.len();
        while j > 0 && !chars_le(&sorted[j - 1], item)
            invariant
                j <= sorted.len(),
                before == texts(sorted@),
                forall|k: int| j <= k < sorted.len() ==> !text_le(#[trigger] before[k], item@),
            decreases j,
        {
            assert(before[j - 1] == sorted@[j - 1]@);
            j -= 1;
        }
        proof {
            lemma_text_insert_behind(before, item@, j as int);
            let front = before.take(j as int);
            if j > 0 {
                assert(front.last() == sorted@[j - 1]@);
            }
            assert(with_text_inserted(front, item@) == front.push(item@));
            assert(all.take(n + 1).drop_last() =~= all.take(n as int));
            assert(all.take(n + 1).last() == item@);
        }
        let copy = slice_chars(item, 0, item.len());
        assert(copy@ =~= item@);
        sorted.insert(j, copy);
        assert(texts(sorted@) =~= before.take(j as int).push(item@) + before.skip(j as int));
        n += 1;
    }
    assert(all.take(items.len() as int) =~= all);
    sorted
}

} // verus!
