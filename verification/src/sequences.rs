//! Facts about sequences that the other modules lean on.

use vstd::prelude::*;

verus! {

/// What lies in a concatenation lies in one of its parts.
pub proof fn lemma_add_contains<A>(a: Seq<A>, b: Seq<A>, x: A)
    ensures
        (a + b).contains(x) <==> a.contains(x) || b.contains(x),
{
    if a.contains(x) {
        let k = choose|k: int| 0 <= k < a.len() && a[k] == x;
        assert((a + b)[k] == x);
    }
    if b.contains(x) {
        let k = choose|k: int| 0 <= k < b.len() && b[k] == x;
        assert((a + b)[a.len() + k] == x);
    }
    if (a + b).contains(x) {
        let k = choose|k: int| 0 <= k < (a + b).len() && (a + b)[k] == x;
        if k < a.len() {
            assert(a[k] == x);
        } else {
            assert(b[k - a.len()] == x);
        }
    }
}

/// What lies in a flattened sequence lies in one of its members.
pub proof fn lemma_flatten_contains<A>(s: Seq<Seq<A>>, x: A)
    ensures
        s.flatten().contains(x) <==> exists|k: int| 0 <= k < s.len() && (#[trigger] s[k]).contains(x),
    decreases s.len(),
{
    if s.len() == 0 {
        assert(s.flatten() == Seq::<A>::empty());
    } else {
        let rest = s.drop_first();
        lemma_flatten_contains(rest, x);
        lemma_add_contains(s.first(), rest.flatten(), x);
        if s.flatten().contains(x) {
            if s.first().contains(x) {
                assert(s[0].contains(x));
            } else {
                let k = choose|k: int| 0 <= k < rest.len() && (#[trigger] rest[k]).contains(x);
                assert(s[k + 1] == rest[k]);
            }
        }
        if exists|k: int| 0 <= k < s.len() && (#[trigger] s[k]).contains(x) {
            let k = choose|k: int| 0 <= k < s.len() && (#[trigger] s[k]).contains(x);
            if k > 0 {
                assert(rest[k - 1] == s[k]);
            }
        }
    }
}

/// Two sequences without repeats and with nothing in common join into one without
/// repeats.
pub proof fn lemma_add_once<A>(a: Seq<A>, b: Seq<A>)
    requires
        a.no_duplicates(),
        b.no_duplicates(),
        forall|x: A| !(a.contains(x) && b.contains(x)),
    ensures
        (a + b).no_duplicates(),
{
    assert forall|i: int, j: int| 0 <= i < a.len() && 0 <= j < b.len() implies a[i] != b[j] by {
        assert(a.contains(a[i]));
        assert(b.contains(b[j]));
    }
    vstd::seq_lib::lemma_no_dup_in_concat(a, b);
}

/// Filtering a sequence without repeats leaves none.
pub proof fn lemma_filter_once<A>(s: Seq<A>, pred: spec_fn(A) -> bool)
    requires
        s.no_duplicates(),
    ensures
        s.filter(pred).no_duplicates(),
    decreases s.len(),
{
    if s.len() == 0 {
        assert(s.filter(pred) == Seq::<A>::empty()) by {
            reveal(Seq::filter);
        }
    } else {
        let head = s.drop_last();
        let last = s.last();
        assert(s == head.push(last));
        lemma_filter_once(head, pred);
        head.lemma_filter_push(last, pred);
        if pred(last) {
            if head.filter(pred).contains(last) {
                head.lemma_filter_contains_rev(pred, last);
                let k = choose|k: int| 0 <= k < head.len() && head[k] == last;
                assert(s[k] == s[s.len() - 1]);
            }
            assert(seq![last].no_duplicates());
            assert forall|x: A| !(head.filter(pred).contains(x) && seq![last].contains(x)) by {
                if seq![last].contains(x) {
                    assert(x == last);
                }
            }
            lemma_add_once(head.filter(pred), seq![last]);
            assert(head.filter(pred).push(last) == head.filter(pred) + seq![last]);
        }
    }
}

/// Flattening members without repeats, no two of which have anything in common, gives
/// a sequence without repeats.
pub proof fn lemma_flatten_once<A>(s: Seq<Seq<A>>)
    requires
        forall|k: int| 0 <= k < s.len() ==> (#[trigger] s[k]).no_duplicates(),
        forall|j: int, k: int, x: A|
            0 <= j < s.len() && 0 <= k < s.len() && j != k ==> !(#[trigger] s[j].contains(x)
                && #[trigger] s[k].contains(x)),
    ensures
        s.flatten().no_duplicates(),
    decreases s.len(),
{
    if s.len() == 0 {
        assert(s.flatten() == Seq::<A>::empty());
    } else {
        let head = s.drop_last();
        let last = s.last();
        assert(s == head.push(last));
        head.lemma_flatten_push(last);
        assert forall|j: int, k: int, x: A|
            0 <= j < head.len() && 0 <= k < head.len() && j != k implies !(#[trigger] head[j].contains(
            x,
        ) && #[trigger] head[k].contains(x)) by {
            assert(head[j] == s[j] && head[k] == s[k]);
        }
        assert forall|k: int| 0 <= k < head.len() implies (#[trigger] head[k]).no_duplicates() by {
            assert(head[k] == s[k]);
        }
        lemma_flatten_once(head);
        assert forall|x: A| !(head.flatten().contains(x) && last.contains(x)) by {
            lemma_flatten_contains(head, x);
            if head.flatten().contains(x) && last.contains(x) {
                let k = choose|k: int| 0 <= k < head.len() && (#[trigger] head[k]).contains(x);
                assert(s[k].contains(x) && s[s.len() - 1].contains(x));
            }
        }
        lemma_add_once(head.flatten(), last);
    }
}

} // verus!
