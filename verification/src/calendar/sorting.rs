//! The order in which entries are shown: by start, and among entries that
//! compare equal, as they stood.

use vstd::prelude::*;
use vstd::seq_lib::seq_to_set_is_finite;
use vstd::set_lib::{lemma_int_range, lemma_subset_equality, set_int_range};
use crate::calendar::date_or_datetime::day_precedes;
use crate::calendar::{entry_views, CalendarEntry, EntryView};

verus! {

/// `out` holds the entries of `inp`, the entry at `k` being the one that stood
/// at `perm[k]`.
pub open spec fn rearranges(perm: Seq<int>, inp: Seq<EntryView>, out: Seq<EntryView>) -> bool {
    &&& perm.len() == inp.len()
    &&& out.len() == inp.len()
    &&& forall|k: int|
        0 <= k < perm.len() ==> 0 <= #[trigger] perm[k] < inp.len() && out[k] == inp[perm[k]]
    &&& forall|k: int, l: int| 0 <= k < l < perm.len() ==> #[trigger] perm[k] != #[trigger] perm[l]
}

/// No entry starts before the one in front of it.
pub open spec fn in_order(out: Seq<EntryView>) -> bool {
    forall|k: int, l: int|
        0 <= k && l == k + 1 && l < out.len() ==> !(#[trigger] out[l]).start.strictly_before(
            (#[trigger] out[k]).start,
        )
}

/// Two entries have changed their order only where the one that stood behind
/// starts before the other.
pub open spec fn moves_earlier_starts_only(perm: Seq<int>, out: Seq<EntryView>) -> bool {
    forall|k: int, l: int|
        0 <= k < l < perm.len() && #[trigger] perm[k] > #[trigger] perm[l]
            ==> out[k].start.strictly_before(out[l].start)
}

/// `sorted_from`, with the places that the entries came from.
pub open spec fn sorted_by(perm: Seq<int>, inp: Seq<EntryView>, out: Seq<EntryView>) -> bool {
    &&& rearranges(perm, inp, out)
    &&& in_order(out)
    &&& moves_earlier_starts_only(perm, out)
}

/// `out` is `inp` sorted by start: the same entries, none starting before the
/// one in front of it, and two of them exchanged only where the later one
/// starts before the earlier. Entries that compare equal keep their order.
pub open spec fn sorted_from(inp: Seq<EntryView>, out: Seq<EntryView>) -> bool {
    exists|perm: Seq<int>| sorted_by(perm, inp, out)
}

/// Sorts the entries by start, keeping the order of those that compare equal.
pub fn sort_by_datetime(entries: &mut Vec<CalendarEntry>)
    ensures
        sorted_from(entry_views(old(entries)@), entry_views(final(entries)@)),
{
    let n = entries.len();
    let ghost inp = entry_views(entries@);
    let ghost mut perm: Seq<int> = Seq::new(n as nat, |k: int| k);
    let mut i: usize = 0;
    while i < n
        invariant
            n == entries.len(),
            inp.len() == n,
            i <= n,
            rearranges(perm, inp, entry_views(entries@)),
            forall|k: int| i <= k < n ==> perm[k] == k,
            forall|k: int| 0 <= k < i ==> perm[k] < i,
            in_order(entry_views(entries@).take(i as int)),
            moves_earlier_starts_only(perm.take(i as int), entry_views(entries@).take(i as int)),
        decreases n - i,
    {
        let mut j: usize = i;
        while j > 0 && entries[i].start().starts_before(entries[j - 1].start())
            invariant
                j <= i < n,
                n == entries.len(),
                forall|k: int|
                    j <= k < i ==> entries@[i as int]@.start.strictly_before(
                        (#[trigger] entries@[k])@.start,
                    ),
            decreases j,
        {
            j -= 1;
        }
        let ghost before = entry_views(entries@);
        let ghost values_before = entries@;
        let ghost perm_before = perm;
        let e = entries.remove(i);
        entries.insert(j, e);
        proof {
            perm = perm_before.remove(i as int).insert(j as int, i as int);
            let out = entry_views(entries@);
            assert(out.len() == n);
            assert(perm.len() == n);
            assert(perm_before[i as int] == i);
            assert forall|k: int| 0 <= k < n implies 0 <= #[trigger] perm[k] < n && out[k]
                == inp[perm[k]] by {
                let kb = if k < j { k } else if k == j { i as int } else if k <= i { k - 1 } else { k };
                assert(perm[k] == perm_before[kb]);
                assert(entries@[k] == values_before[kb]);
                assert(out[k] == before[kb]);
            }
            assert forall|k: int, l: int| 0 <= k < l < n implies #[trigger] perm[k]
                != #[trigger] perm[l] by {
                let kb = if k < j { k } else if k == j { i as int } else if k <= i { k - 1 } else { k };
                let lb = if l < j { l } else if l == j { i as int } else if l <= i { l - 1 } else { l };
                assert(perm[k] == perm_before[kb]);
                assert(perm[l] == perm_before[lb]);
                assert(kb != lb);
                if kb < lb {
                    assert(perm_before[kb] != perm_before[lb]);
                } else {
                    assert(perm_before[lb] != perm_before[kb]);
                }
            }
            assert(rearranges(perm, inp, out));
            let t = out.take(i + 1);
            let tb = before.take(i as int);
            assert forall|k: int| 0 <= k <= i implies #[trigger] t[k] == (if k < j {
                tb[k]
            } else if k == j {
                before[i as int]
            } else {
                tb[k - 1]
            }) by {
                let kb = if k < j { k } else if k == j { i as int } else { k - 1 };
                assert(entries@[k] == values_before[kb]);
            }
            assert forall|k: int, l: int| 0 <= k && l == k + 1 && l < t.len() implies !(
            #[trigger] t[l]).start.strictly_before((#[trigger] t[k]).start) by {
                if l < j {
                    assert(t[l] == tb[l] && t[k] == tb[k]);
                } else if l == j {
                    assert(t[k] == tb[j - 1]);
                    assert(tb[j - 1] == values_before[j - 1]@);
                } else if k == j {
                    assert(t[l] == tb[k]);
                    assert(tb[k] == values_before[k]@);
                } else {
                    assert(t[l] == tb[l - 1] && t[k] == tb[k - 1]);
                }
            }
            let pt = perm.take(i + 1);
            let ptb = perm_before.take(i as int);
            assert forall|k: int, l: int|
                0 <= k < l < pt.len() && #[trigger] pt[k] > #[trigger] pt[l] implies t[k].start.strictly_before(
                t[l].start,
            ) by {
                let kb = if k < j { k } else { k - 1 };
                let lb = if l < j { l } else { l - 1 };
                if k == j {
                    assert(t[l] == tb[lb]);
                    assert(tb[lb] == values_before[lb]@);
                } else if l == j {
                    assert(pt[k] == perm_before[kb]);
                    assert(perm_before[kb] < i);
                } else {
                    assert(pt[k] == ptb[kb] && pt[l] == ptb[lb]);
                    assert(t[k] == tb[kb] && t[l] == tb[lb]);
                }
            }
        }
        i += 1;
    }
    proof {
        assert(entry_views(entries@).take(n as int) == entry_views(entries@));
        assert(perm.take(n as int) == perm);
        assert(sorted_by(perm, inp, entry_views(entries@)));
    }
}

/// Along entries in order the days never go back, however far apart two
/// entries stand.
pub proof fn lemma_days_ascend(out: Seq<EntryView>, k: int, l: int)
    requires
        in_order(out),
        0 <= k <= l < out.len(),
    ensures
        !day_precedes(out[l].start.day(), out[k].start.day()),
    decreases l - k,
{
    if k < l {
        lemma_days_ascend(out, k, l - 1);
        assert(!out[l].start.strictly_before(out[l - 1].start));
    }
}

/// A rearrangement takes an entry from every place.
pub proof fn lemma_takes_from_every_place(perm: Seq<int>, place: int)
    requires
        forall|k: int| 0 <= k < perm.len() ==> 0 <= #[trigger] perm[k] < perm.len(),
        forall|k: int, l: int| 0 <= k < l < perm.len() ==> #[trigger] perm[k] != #[trigger] perm[l],
        0 <= place < perm.len(),
    ensures
        exists|k: int| 0 <= k < perm.len() && #[trigger] perm[k] == place,
{
    let n = perm.len() as int;
    assert(perm.no_duplicates()) by {
        assert forall|i: int, j: int| 0 <= i < n && 0 <= j < n && i != j implies perm[i]
            != perm[j] by {
            if i < j {
                assert(perm[i] != perm[j]);
            } else {
                assert(perm[j] != perm[i]);
            }
        }
    }
    perm.unique_seq_to_set();
    lemma_int_range(0, n);
    seq_to_set_is_finite(perm);
    assert(perm.to_set().subset_of(set_int_range(0, n))) by {
        assert forall|v: int| perm.to_set().contains(v) implies set_int_range(0, n).contains(v) by {
            let k = choose|k: int| 0 <= k < n && perm[k] == v;
            assert(0 <= perm[k] < n);
        }
    }
    lemma_subset_equality(perm.to_set(), set_int_range(0, n));
    assert(set_int_range(0, n).contains(place));
    assert(perm.to_set().contains(place));
    assert(perm.contains(place));
}

/// Taking the entry that stood last out of a sorted sequence leaves the
/// others sorted.
proof fn lemma_without_last(perm: Seq<int>, inp: Seq<EntryView>, out: Seq<EntryView>, at: int)
    requires
        sorted_by(perm, inp, out),
        0 <= at < perm.len(),
        perm[at] == perm.len() - 1,
    ensures
        sorted_by(perm.remove(at), inp.drop_last(), out.remove(at)),
{
    let n = perm.len() as int;
    let rest = perm.remove(at);
    let less = out.remove(at);
    let short = inp.drop_last();
    assert forall|k: int| 0 <= k < rest.len() implies 0 <= #[trigger] rest[k] < short.len()
        && less[k] == short[rest[k]] by {
        let kb = if k < at { k } else { k + 1 };
        assert(rest[k] == perm[kb]);
        assert(less[k] == out[kb]);
        if kb < at {
            assert(perm[kb] != perm[at]);
        } else {
            assert(perm[at] != perm[kb]);
        }
    }
    assert forall|k: int, l: int| 0 <= k < l < rest.len() implies #[trigger] rest[k]
        != #[trigger] rest[l] by {
        let kb = if k < at { k } else { k + 1 };
        let lb = if l < at { l } else { l + 1 };
        assert(rest[k] == perm[kb] && rest[l] == perm[lb]);
    }
    assert forall|k: int, l: int| 0 <= k && l == k + 1 && l < less.len() implies !(
    #[trigger] less[l]).start.strictly_before((#[trigger] less[k]).start) by {
        let kb = if k < at { k } else { k + 1 };
        let lb = if l < at { l } else { l + 1 };
        assert(less[k] == out[kb] && less[l] == out[lb]);
        if lb == kb + 1 {
            assert(!out[lb].start.strictly_before(out[kb].start));
        } else {
            assert(kb == at - 1 && lb == at + 1);
            assert(!out[at].start.strictly_before(out[kb].start));
            assert(perm[at] > perm[lb]);
            assert(out[at].start.strictly_before(out[lb].start));
        }
    }
    assert forall|k: int, l: int|
        0 <= k < l < rest.len() && #[trigger] rest[k] > #[trigger] rest[l] implies less[k].start.strictly_before(
        less[l].start,
    ) by {
        let kb = if k < at { k } else { k + 1 };
        let lb = if l < at { l } else { l + 1 };
        assert(rest[k] == perm[kb] && rest[l] == perm[lb]);
        assert(less[k] == out[kb] && less[l] == out[lb]);
    }
}

/// The entries can be sorted in one way only, and each entry goes to one
/// place only.
pub proof fn lemma_sorted_by_unique(
    inp: Seq<EntryView>,
    first_perm: Seq<int>,
    first: Seq<EntryView>,
    second_perm: Seq<int>,
    second: Seq<EntryView>,
)
    requires
        sorted_by(first_perm, inp, first),
        sorted_by(second_perm, inp, second),
    ensures
        first_perm == second_perm,
        first == second,
    decreases inp.len(),
{
    let n = inp.len() as int;
    if n == 0 {
        assert(first_perm =~= second_perm);
        assert(first =~= second);
    } else {
        lemma_takes_from_every_place(first_perm, n - 1);
        lemma_takes_from_every_place(second_perm, n - 1);
        let a = choose|k: int| 0 <= k < n && #[trigger] first_perm[k] == n - 1;
        let b = choose|k: int| 0 <= k < n && #[trigger] second_perm[k] == n - 1;
        lemma_without_last(first_perm, inp, first, a);
        lemma_without_last(second_perm, inp, second, b);
        lemma_sorted_by_unique(
            inp.drop_last(),
            first_perm.remove(a),
            first.remove(a),
            second_perm.remove(b),
            second.remove(b),
        );
        let rest = first.remove(a);
        assert(first[a] == inp[n - 1] && second[b] == inp[n - 1]);
        if a < b {
            assert(rest[b - 1] == first[b]);
            assert(rest[b - 1] == second[b - 1]);
            assert(first_perm[a] > first_perm[b]);
            assert(first[a].start.strictly_before(first[b].start));
            assert(!second[b].start.strictly_before(second[b - 1].start));
            assert(false);
        }
        if b < a {
            assert(rest[a - 1] == second[a]);
            assert(rest[a - 1] == first[a - 1]);
            assert(second_perm[b] > second_perm[a]);
            assert(second[b].start.strictly_before(second[a].start));
            assert(!first[a].start.strictly_before(first[a - 1].start));
            assert(false);
        }
        assert(first_perm =~= first_perm.remove(a).insert(a, n - 1));
        assert(second_perm =~= second_perm.remove(a).insert(a, n - 1));
        assert(first =~= first.remove(a).insert(a, inp[n - 1]));
        assert(second =~= second.remove(a).insert(a, inp[n - 1]));
    }
}

/// Sorting has one result.
pub proof fn lemma_sorted_unique(inp: Seq<EntryView>, first: Seq<EntryView>, second: Seq<EntryView>)
    requires
        sorted_from(inp, first),
        sorted_from(inp, second),
    ensures
        first == second,
{
    let first_perm = choose|perm: Seq<int>| sorted_by(perm, inp, first);
    let second_perm = choose|perm: Seq<int>| sorted_by(perm, inp, second);
    lemma_sorted_by_unique(inp, first_perm, first, second_perm, second);
}

/// Sorting entries that are in order changes nothing. So sorting twice gives
/// what sorting once gives.
pub proof fn lemma_sorting_keeps_what_is_in_order(inp: Seq<EntryView>, out: Seq<EntryView>)
    requires
        in_order(inp),
        sorted_from(inp, out),
    ensures
        out == inp,
{
    let stay = Seq::new(inp.len(), |k: int| k);
    assert(sorted_by(stay, inp, inp));
    assert(sorted_from(inp, inp));
    lemma_sorted_unique(inp, out, inp);
}

} // verus!
