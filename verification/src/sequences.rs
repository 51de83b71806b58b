//! Lemmas about sequences that several modules share.

use vstd::prelude::*;

verus! {

/// Filtering one element more of a sequence appends that element where it
/// passes and changes nothing where it does not.
pub proof fn lemma_filter_step<A>(s: Seq<A>, pred: spec_fn(A) -> bool, n: int)
    requires
        0 <= n < s.len(),
    ensures
        s.take(n + 1).filter(pred) == if pred(s[n]) {
            s.take(n).filter(pred).push(s[n])
        } else {
            s.take(n).filter(pred)
        },
{
    reveal(Seq::filter);
    assert(s.take(n + 1).drop_last() =~= s.take(n));
    assert(s.take(n + 1).last() == s[n]);
}

/// What passes a filter is what was there and passes; and where nothing
/// occurred twice, nothing does afterwards.
pub proof fn lemma_filter_members<A>(s: Seq<A>, pred: spec_fn(A) -> bool)
    ensures
        forall|a: A| #[trigger] s.filter(pred).contains(a) <==> (s.contains(a) && pred(a)),
        s.no_duplicates() ==> s.filter(pred).no_duplicates(),
    decreases s.len(),
{
    reveal(Seq::filter);
    let kept = s.filter(pred);
    if s.len() > 0 {
        let front = s.drop_last();
        let last = s.last();
        lemma_filter_members(front, pred);
        let before = front.filter(pred);
        assert forall|a: A| #[trigger] kept.contains(a) <==> (s.contains(a) && pred(a)) by {
            if kept.contains(a) {
                let i = choose|i: int| 0 <= i < kept.len() && kept[i] == a;
                if pred(last) && i == before.len() {
                    assert(s[s.len() - 1] == a);
                } else {
                    assert(before[i] == a);
                    assert(before.contains(a));
                    let j = choose|j: int| 0 <= j < front.len() && front[j] == a;
                    assert(s[j] == a);
                }
            }
            if s.contains(a) && pred(a) {
                let j = choose|j: int| 0 <= j < s.len() && s[j] == a;
                if j == s.len() - 1 {
                    assert(kept[before.len() as int] == a);
                } else {
                    assert(front[j] == a);
                    assert(front.contains(a));
                    assert(before.contains(a));
                    let i = choose|i: int| 0 <= i < before.len() && before[i] == a;
                    assert(kept[i] == a);
                }
            }
        }
        if s.no_duplicates() {
            assert(front.no_duplicates());
            assert forall|i: int, j: int|
                0 <= i < kept.len() && 0 <= j < kept.len() && i != j implies kept[i]
                != kept[j] by {
                if pred(last) {
                    if i == before.len() {
                        assert(before[j] == kept[j]);
                        assert(before.contains(kept[j]));
                        assert(front.contains(kept[j]));
                        let m = choose|m: int| 0 <= m < front.len() && front[m] == kept[j];
                        assert(s[m] == kept[j]);
                    } else if j == before.len() {
                        assert(before[i] == kept[i]);
                        assert(before.contains(kept[i]));
                        assert(front.contains(kept[i]));
                        let m = choose|m: int| 0 <= m < front.len() && front[m] == kept[i];
                        assert(s[m] == kept[i]);
                    } else {
                        assert(before[i] == kept[i] && before[j] == kept[j]);
                    }
                } else {
                    assert(before[i] == kept[i] && before[j] == kept[j]);
                }
            }
        }
    }
}

} // verus!
