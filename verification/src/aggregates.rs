use vstd::prelude::*;
use crate::catalog::Catalog;
use crate::damage::{cause_eq, cause_tag, damage_like, damages_like, Damage, DamageCause};
use crate::heal::Heal;
use crate::order::{lemma_filter_sorted, seq_sorted, sort_total, TotalOrdered};
use crate::player::{
    displayed_bundle_ok, DisplayedPlayerStatistics, Player, PlayerStatistics, SimplePlayer,
    StatisticEntry,
};
use crate::report::{since, spec_since};
use crate::settings::SettingsPlayers;
use crate::text::{
    lex_le, lemma_lex_le_antisym, lemma_lex_le_total, lemma_lex_le_trans, str_eq, str_lex_le,
};

verus! {

/// The exact total a key counts to across a sequence of entries.
pub open spec fn key_total(entries: Seq<StatisticEntry>, k: Seq<char>) -> int
    decreases entries.len(),
{
    if entries.len() == 0 {
        0int
    } else {
        key_total(entries.drop_last(), k) + if entries.last().key@ == k {
            entries.last().value as int
        } else {
            0int
        }
    }
}

/// Whether some entry carries this key.
pub open spec fn has_key(entries: Seq<StatisticEntry>, k: Seq<char>) -> bool {
    exists|i: int| 0 <= i < entries.len() && (#[trigger] entries[i]).key@ == k
}

/// A total clamped into a `u32` counter.
pub open spec fn clip_u32(n: int) -> u32 {
    if n > u32::MAX {
        u32::MAX
    } else if n < 0 {
        0u32
    } else {
        n as u32
    }
}

pub open spec fn sat_add_u32(a: u32, b: u32) -> u32 {
    if a + b > u32::MAX {
        u32::MAX
    } else {
        (a + b) as u32
    }
}

fn add_counts(a: u32, b: u32) -> (r: u32)
    ensures
        r == sat_add_u32(a, b),
{
    if a > u32::MAX - b {
        u32::MAX
    } else {
        a + b
    }
}

/// Keys strictly ascending: sorted with no repetition, as a key-ordered
/// map iterates.
pub open spec fn strictly_key_sorted(s: Seq<StatisticEntry>) -> bool {
    forall|i: int, j: int|
        0 <= i < j < s.len() ==> lex_le((#[trigger] s[i]).key@, (#[trigger] s[j]).key@) && s[i].key@
            != s[j].key@
}

/// The count an association list holds for a key, if any.
pub open spec fn lookup(s: Seq<StatisticEntry>, k: Seq<char>) -> Option<u32>
    decreases s.len(),
{
    if s.len() == 0 {
        Option::None
    } else if s.first().key@ == k {
        Option::Some(s.first().value)
    } else {
        lookup(s.drop_first(), k)
    }
}

proof fn lemma_lookup_some(s: Seq<StatisticEntry>, k: Seq<char>)
    ensures
        lookup(s, k) is Some <==> has_key(s, k),
    decreases s.len(),
{
    if s.len() > 0 {
        lemma_lookup_some(s.drop_first(), k);
        if s.first().key@ == k {
            assert(s[0].key@ == k);
        } else {
            if has_key(s.drop_first(), k) {
                let i = choose|i: int|
                    0 <= i < s.drop_first().len() && (#[trigger] s.drop_first()[i]).key@ == k;
                assert(s[i + 1].key@ == k);
            }
            if has_key(s, k) {
                let i = choose|i: int| 0 <= i < s.len() && (#[trigger] s[i]).key@ == k;
                assert(i > 0);
                assert(s.drop_first()[i - 1].key@ == k);
            }
        }
    }
}

proof fn lemma_lookup_at(s: Seq<StatisticEntry>, i: int)
    requires
        strictly_key_sorted(s),
        0 <= i < s.len(),
    ensures
        lookup(s, s[i].key@) == Option::Some(s[i].value),
    decreases s.len(),
{
    if i == 0 {
    } else {
        assert(s.first().key@ != s[i].key@);
        assert forall|a: int, b: int|
            0 <= a < b < s.drop_first().len() implies lex_le(
            (#[trigger] s.drop_first()[a]).key@,
            (#[trigger] s.drop_first()[b]).key@,
        ) && s.drop_first()[a].key@ != s.drop_first()[b].key@ by {
            assert(s.drop_first()[a] == s[a + 1]);
            assert(s.drop_first()[b] == s[b + 1]);
        }
        assert(s.drop_first()[i - 1] == s[i]);
        lemma_lookup_at(s.drop_first(), i - 1);
    }
}

proof fn lemma_key_total_absent(s: Seq<StatisticEntry>, k: Seq<char>)
    requires
        !has_key(s, k),
    ensures
        key_total(s, k) == 0,
    decreases s.len(),
{
    if s.len() > 0 {
        assert(s[s.len() - 1].key@ != k);
        assert forall|j: int| 0 <= j < s.drop_last().len() implies (#[trigger] s.drop_last()[j]).key@
            != k by {
            assert(s.drop_last()[j] == s[j]);
        }
        lemma_key_total_absent(s.drop_last(), k);
    }
}

proof fn lemma_key_total_nonneg(s: Seq<StatisticEntry>, k: Seq<char>)
    ensures
        key_total(s, k) >= 0,
    decreases s.len(),
{
    if s.len() > 0 {
        lemma_key_total_nonneg(s.drop_last(), k);
    }
}

/// A running clamped total absorbs one more count exactly as the clamp of
/// the exact total does.
proof fn lemma_clip_add(total: int, v: u32)
    requires
        total >= 0,
    ensures
        sat_add_u32(clip_u32(total), v) == clip_u32(total + v),
{
}

/// Adds a count to the entry holding this key, inserting the entry at its
/// sorted position if the key is new.
#[verifier::loop_isolation(false)]
fn upsert_entry(acc: &mut Vec<StatisticEntry>, key: &str, add: u32)
    requires
        strictly_key_sorted(old(acc)@),
    ensures
        strictly_key_sorted(final(acc)@),
        lookup(final(acc)@, key@) == match lookup(old(acc)@, key@) {
            Option::Some(v) => Option::Some(sat_add_u32(v, add)),
            Option::None => Option::Some(add),
        },
        forall|k: Seq<char>| k != key@ ==> #[trigger] lookup(final(acc)@, k) == lookup(
            old(acc)@,
            k,
        ),
{
    let ghost before = acc@;
    let mut i: usize = 0;
    while i < acc.len()
        invariant
            strictly_key_sorted(before),
            acc@ == before,
            i <= before.len(),
            forall|j: int| 0 <= j < i ==> (#[trigger] before[j]).key@ != key@,
            forall|j: int| 0 <= j < i ==> lex_le((#[trigger] before[j]).key@, key@),
        decreases before.len() - i,
    {
        if str_eq(acc[i].key.as_str(), key) {
            let mut prev = acc.remove(i);
            prev.value = add_counts(prev.value, add);
            let ghost updated = prev;
            acc.insert(i, prev);
            proof {
                assert(acc@ =~= before.update(i as int, updated));
                lemma_lookup_at(before, i as int);
                lemma_upsert_update(before, i as int, updated, key@);
            }
            return ;
        }
        if str_lex_le(key, acc[i].key.as_str()) {
            proof {
                lemma_lex_le_total(before[i as int].key@, key@);
            }
            let entry = StatisticEntry { key: key.to_owned(), value: add };
            let ghost inserted = entry;
            acc.insert(i, entry);
            proof {
                assert(acc@ =~= before.insert(i as int, inserted));
                assert forall|j: int| 0 <= j < before.len() implies (#[trigger] before[j]).key@
                    != key@ by {
                    if j >= i {
                        if j > i {
                            assert(lex_le(before[i as int].key@, before[j].key@));
                            lemma_lex_le_trans(key@, before[i as int].key@, before[j].key@);
                            if before[j].key@ == key@ {
                                lemma_lex_le_antisym(key@, before[i as int].key@);
                            }
                        }
                    }
                }
                assert(!has_key(before, key@));
                lemma_lookup_some(before, key@);
                lemma_upsert_insert(before, i as int, inserted, key@);
            }
            return ;
        }
        proof {
            lemma_lex_le_total(before[i as int].key@, key@);
        }
        i = i + 1;
    }
    let entry = StatisticEntry { key: key.to_owned(), value: add };
    let ghost inserted = entry;
    let ghost n = before.len() as int;
    acc.push(entry);
    proof {
        assert(acc@ =~= before.insert(n, inserted));
        assert(!has_key(before, key@));
        lemma_lookup_some(before, key@);
        lemma_upsert_insert(before, n, inserted, key@);
    }
}

/// Filtering keeps only elements of the original list, and keeps strictly
/// ascending keys strictly ascending.
proof fn lemma_filter_entries(s: Seq<StatisticEntry>, pred: spec_fn(StatisticEntry) -> bool)
    ensures
        forall|i: int| 0 <= i < s.filter(pred).len() ==> s.contains(#[trigger] s.filter(pred)[i]),
        strictly_key_sorted(s) ==> strictly_key_sorted(s.filter(pred)),
    decreases s.len(),
{
    reveal(Seq::filter);
    if s.len() > 0 {
        let dl = s.drop_last();
        lemma_filter_entries(dl, pred);
        assert forall|i: int| 0 <= i < dl.len() implies s.contains(#[trigger] dl[i]) by {
            assert(s[i] == dl[i]);
        }
        assert forall|i: int| 0 <= i < dl.filter(pred).len() implies s.contains(
            #[trigger] dl.filter(pred)[i],
        ) by {
            assert(dl.contains(dl.filter(pred)[i]));
            let q = choose|q: int| 0 <= q < dl.len() && dl[q] == dl.filter(pred)[i];
            assert(s[q] == dl.filter(pred)[i]);
        }
        if pred(s.last()) {
            assert(s.filter(pred) == dl.filter(pred).push(s.last()));
            assert(s.contains(s.last())) by {
                assert(s[s.len() - 1] == s.last());
            }
        } else {
            assert(s.filter(pred) == dl.filter(pred));
        }
        if strictly_key_sorted(s) {
            assert forall|a: int, b: int|
                0 <= a < b < dl.len() implies lex_le((#[trigger] dl[a]).key@, (#[trigger] dl[b]).key@)
                && dl[a].key@ != dl[b].key@ by {
                assert(dl[a] == s[a]);
                assert(dl[b] == s[b]);
            }
            assert(strictly_key_sorted(dl.filter(pred)));
            if pred(s.last()) {
                let f = s.filter(pred);
                assert forall|a: int, b: int|
                    0 <= a < b < f.len() implies lex_le(
                    (#[trigger] f[a]).key@,
                    (#[trigger] f[b]).key@,
                ) && f[a].key@ != f[b].key@ by {
                    if b < f.len() - 1 {
                        assert(f[a] == dl.filter(pred)[a]);
                        assert(f[b] == dl.filter(pred)[b]);
                    } else {
                        assert(f[b] == s.last());
                        assert(f[a] == dl.filter(pred)[a]);
                        assert(dl.contains(f[a]));
                        let q = choose|q: int| 0 <= q < dl.len() && dl[q] == f[a];
                        assert(s[q] == f[a]);
                        assert(lex_le(s[q].key@, s[s.len() - 1].key@));
                        assert(s[q].key@ != s[s.len() - 1].key@);
                    }
                }
            }
        }
    }
}

/// The concatenation of a sequence of entry lists.
pub open spec fn concat_seqs(gs: Seq<Seq<StatisticEntry>>) -> Seq<StatisticEntry>
    decreases gs.len(),
{
    if gs.len() == 0 {
        Seq::<StatisticEntry>::empty()
    } else {
        gs.first() + concat_seqs(gs.drop_first())
    }
}

/// The entry lists a sequence of groups holds.
pub open spec fn group_views(gs: Seq<Vec<StatisticEntry>>) -> Seq<Seq<StatisticEntry>> {
    gs.map_values(|g: Vec<StatisticEntry>| g@)
}

#[verifier::loop_isolation(false)]
fn flatten_groups(groups: Vec<Vec<StatisticEntry>>) -> (r: Vec<StatisticEntry>)
    ensures
        r@ == concat_seqs(group_views(groups@)),
{
    let ghost orig = group_views(groups@);
    let mut rest = groups;
    let mut r: Vec<StatisticEntry> = Vec::new();
    let ghost mut i: int = 0;
    proof {
        assert(group_views(rest@) =~= orig.skip(0));
        assert(r@ + concat_seqs(orig.skip(0)) =~= concat_seqs(orig));
    }
    while rest.len() > 0
        invariant
            0 <= i <= orig.len(),
            group_views(rest@) == orig.skip(i),
            concat_seqs(orig) == r@ + concat_seqs(orig.skip(i)),
        decreases rest@.len(),
    {
        let ghost prev = rest@;
        let mut g = rest.remove(0);
        proof {
            assert(group_views(prev)[0] == prev[0]@);
            assert(g@ == orig.skip(i).first());
            assert forall|m: int| 0 <= m < rest@.len() implies group_views(rest@)[m] == orig.skip(
                i + 1,
            )[m] by {
                assert(rest@[m] == prev[m + 1]);
                assert(group_views(prev)[m + 1] == prev[m + 1]@);
                assert(group_views(rest@)[m] == rest@[m]@);
            }
            assert(group_views(rest@).len() == orig.skip(i + 1).len());
            assert(group_views(rest@) =~= orig.skip(i + 1));
            assert(orig.skip(i).drop_first() =~= orig.skip(i + 1));
            assert(concat_seqs(orig.skip(i)) == g@ + concat_seqs(orig.skip(i + 1)));
        }
        let ghost r_before = r@;
        let ghost gv = g@;
        r.append(&mut g);
        proof {
            assert(r@ == r_before + gv);
            assert(r@ + concat_seqs(orig.skip(i + 1)) =~= r_before + (gv + concat_seqs(
                orig.skip(i + 1),
            )));
            i = i + 1;
        }
    }
    proof {
        assert(concat_seqs(orig.skip(i)) =~= Seq::<StatisticEntry>::empty());
        assert(r@ + concat_seqs(orig.skip(i)) =~= r@);
    }
    r
}

pub open spec fn nonzero_pred() -> spec_fn(StatisticEntry) -> bool {
    |e: StatisticEntry| e.value != 0
}

/// What the union of several statistic groups guarantees: keys strictly
/// ascending, every entry carrying the clamped total its key counts to
/// across all groups with zero totals dropped, and a key for every key
/// that appears anywhere with a non-zero total.
pub open spec fn aggregated_group_ok(all: Seq<StatisticEntry>, r: Seq<StatisticEntry>) -> bool {
    &&& strictly_key_sorted(r)
    &&& forall|i: int|
        0 <= i < r.len() ==> has_key(all, (#[trigger] r[i]).key@) && r[i].value != 0 && r[i].value
            == clip_u32(key_total(all, r[i].key@))
    &&& forall|k: Seq<char>|
        #[trigger] has_key(all, k) && clip_u32(key_total(all, k)) != 0 ==> has_key(r, k)
}

/// Unions several raw statistic groups into one: counts of identical keys
/// add (clamped), keys whose total is exactly zero are dropped, and the
/// result is keyed in ascending order.
#[verifier::loop_isolation(false)]
pub fn aggregate_single_statistic_group(statistics: Vec<Vec<StatisticEntry>>) -> (r: Vec<
    StatisticEntry,
>)
    ensures
        aggregated_group_ok(concat_seqs(group_views(statistics@)), r@),
{
    let ghost all = concat_seqs(group_views(statistics@));
    let flat = flatten_groups(statistics);
    let mut acc: Vec<StatisticEntry> = Vec::new();
    let mut i: usize = 0;
    proof {
        assert(flat@.take(0int) =~= Seq::<StatisticEntry>::empty());
        assert forall|k: Seq<char>| #[trigger] lookup(acc@, k) == (if has_key(
            flat@.take(0int),
            k,
        ) {
            Option::Some(clip_u32(key_total(flat@.take(0int), k)))
        } else {
            Option::<u32>::None
        }) by {
            assert(!has_key(flat@.take(0int), k));
        }
    }
    while i < flat.len()
        invariant
            i <= flat@.len(),
            strictly_key_sorted(acc@),
            forall|k: Seq<char>| #[trigger] lookup(acc@, k) == (if has_key(
                flat@.take(i as int),
                k,
            ) {
                Option::Some(clip_u32(key_total(flat@.take(i as int), k)))
            } else {
                Option::<u32>::None
            }),
        decreases flat@.len() - i,
    {
        let e = &flat[i];
        let ghost acc_before = acc@;
        upsert_entry(&mut acc, e.key.as_str(), e.value);
        proof {
            let pre = flat@.take(i as int);
            let post = flat@.take(i + 1);
            assert(post.drop_last() =~= pre);
            assert(post.last() == flat@[i as int]);
            let ek = flat@[i as int].key@;
            let ev = flat@[i as int].value;
            assert(key_total(post, ek) == key_total(pre, ek) + ev);
            lemma_key_total_nonneg(pre, ek);
            assert forall|k: Seq<char>| #[trigger] lookup(acc@, k) == (if has_key(post, k) {
                Option::Some(clip_u32(key_total(post, k)))
            } else {
                Option::<u32>::None
            }) by {
                if k == ek {
                    assert(has_key(post, k)) by {
                        assert(post[post.len() - 1].key@ == k);
                    }
                    if has_key(pre, k) {
                        lemma_clip_add(key_total(pre, k), ev);
                    } else {
                        lemma_key_total_absent(pre, k);
                    }
                } else {
                    assert(lookup(acc@, k) == lookup(acc_before, k));
                    assert(key_total(post, k) == key_total(pre, k));
                    assert(has_key(post, k) == has_key(pre, k)) by {
                        if has_key(pre, k) {
                            let q = choose|q: int|
                                0 <= q < pre.len() && (#[trigger] pre[q]).key@ == k;
                            assert(post[q].key@ == k);
                        }
                        if has_key(post, k) {
                            let q = choose|q: int|
                                0 <= q < post.len() && (#[trigger] post[q]).key@ == k;
                            assert(q < pre.len());
                            assert(pre[q].key@ == k);
                        }
                    }
                }
            }
        }
        i = i + 1;
    }
    proof {
        assert(flat@.take(flat@.len() as int) =~= flat@);
    }
    let mut r: Vec<StatisticEntry> = Vec::new();
    let mut j: usize = 0;
    proof {
        reveal(Seq::filter);
        assert(acc@.take(0int) =~= Seq::<StatisticEntry>::empty());
    }
    while j < acc.len()
        invariant
            j <= acc@.len(),
            r@ == acc@.take(j as int).filter(nonzero_pred()),
        decreases acc@.len() - j,
    {
        let keep = acc[j].value != 0;
        if keep {
            let entry = StatisticEntry { key: acc[j].key.clone(), value: acc[j].value };
            proof {
                assert(entry == acc@[j as int]);
            }
            r.push(entry);
        }
        proof {
            reveal(Seq::filter);
            let pre = acc@.take(j as int);
            let post = acc@.take(j + 1);
            assert(post.drop_last() =~= pre);
            assert(post.last() == acc@[j as int]);
        }
        j = j + 1;
    }
    proof {
        assert(acc@.take(acc@.len() as int) =~= acc@);
        assert(r@ == acc@.filter(nonzero_pred()));
        lemma_filter_entries(acc@, nonzero_pred());
        Seq::filter_lemma(acc@, nonzero_pred());
        assert forall|i2: int|
            0 <= i2 < r@.len() implies has_key(all, (#[trigger] r@[i2]).key@) && r@[i2].value != 0
            && r@[i2].value == clip_u32(key_total(all, r@[i2].key@)) by {
            assert(acc@.contains(r@[i2]));
            let q = choose|q: int| 0 <= q < acc@.len() && acc@[q] == r@[i2];
            lemma_lookup_at(acc@, q);
            assert(lookup(acc@, r@[i2].key@) == Option::Some(r@[i2].value));
            assert(nonzero_pred()(r@[i2]));
        }
        assert forall|k: Seq<char>| #[trigger] has_key(all, k) && clip_u32(key_total(all, k))
            != 0 implies has_key(r@, k) by {
            assert(lookup(acc@, k) == Option::Some(clip_u32(key_total(all, k))));
            lemma_lookup_some(acc@, k);
            let q = choose|q: int| 0 <= q < acc@.len() && (#[trigger] acc@[q]).key@ == k;
            lemma_lookup_at(acc@, q);
            assert(acc@[q].value == clip_u32(key_total(all, k)));
            assert(nonzero_pred()(acc@[q]));
            assert(r@.contains(acc@[q]));
            let m = choose|m: int| 0 <= m < r@.len() && r@[m] == acc@[q];
            assert(r@[m].key@ == k);
        }
    }
    r
}

/// Updating the entry at the key's position changes only that key's count.
proof fn lemma_upsert_update(before: Seq<StatisticEntry>, i: int, updated: StatisticEntry, k: Seq<char>)
    requires
        strictly_key_sorted(before),
        0 <= i < before.len(),
        before[i].key@ == k,
        updated.key@ == k,
        forall|j: int| 0 <= j < i ==> (#[trigger] before[j]).key@ != k,
    ensures
        strictly_key_sorted(before.update(i, updated)),
        lookup(before.update(i, updated), k) == Option::Some(updated.value),
        forall|k2: Seq<char>| k2 != k ==> #[trigger] lookup(before.update(i, updated), k2) == lookup(
            before,
            k2,
        ),
    decreases i,
{
    let after = before.update(i, updated);
    assert forall|a: int, b: int|
        0 <= a < b < after.len() implies lex_le((#[trigger] after[a]).key@, (#[trigger] after[b]).key@)
        && after[a].key@ != after[b].key@ by {
        assert(after[a].key@ == before[a].key@);
        assert(after[b].key@ == before[b].key@);
    }
    if i == 0 {
        assert(after.first() == updated);
        assert forall|k2: Seq<char>| k2 != k implies #[trigger] lookup(after, k2) == lookup(
            before,
            k2,
        ) by {
            assert(after.drop_first() =~= before.drop_first());
            assert(lookup(after, k2) == lookup(after.drop_first(), k2));
            assert(lookup(before, k2) == lookup(before.drop_first(), k2));
        }
    } else {
        assert(after.first() == before.first());
        assert(after.first().key@ != k);
        assert(after.drop_first() =~= before.drop_first().update(i - 1, updated));
        assert forall|a: int, b: int|
            0 <= a < b < before.drop_first().len() implies lex_le(
            (#[trigger] before.drop_first()[a]).key@,
            (#[trigger] before.drop_first()[b]).key@,
        ) && before.drop_first()[a].key@ != before.drop_first()[b].key@ by {
            assert(before.drop_first()[a] == before[a + 1]);
            assert(before.drop_first()[b] == before[b + 1]);
        }
        assert forall|j: int| 0 <= j < i - 1 implies (#[trigger] before.drop_first()[j]).key@
            != k by {
            assert(before.drop_first()[j] == before[j + 1]);
        }
        assert(before.drop_first()[i - 1] == before[i]);
        lemma_upsert_update(before.drop_first(), i - 1, updated, k);
        assert(lookup(after, k) == lookup(after.drop_first(), k));
        assert forall|k2: Seq<char>| k2 != k implies #[trigger] lookup(after, k2) == lookup(
            before,
            k2,
        ) by {
            if after.first().key@ != k2 {
                assert(lookup(after, k2) == lookup(after.drop_first(), k2));
                assert(lookup(before, k2) == lookup(before.drop_first(), k2));
            }
        }
    }
}

/// Inserting a fresh key at its sorted position keeps the list sorted and
/// changes only that key's count.
proof fn lemma_upsert_insert(before: Seq<StatisticEntry>, i: int, inserted: StatisticEntry, k: Seq<char>)
    requires
        strictly_key_sorted(before),
        0 <= i <= before.len(),
        inserted.key@ == k,
        forall|j: int| 0 <= j < i ==> (#[trigger] before[j]).key@ != k,
        forall|j: int| 0 <= j < i ==> lex_le((#[trigger] before[j]).key@, k),
        i < before.len() ==> lex_le(k, before[i].key@) && before[i].key@ != k,
    ensures
        strictly_key_sorted(before.insert(i, inserted)),
        lookup(before.insert(i, inserted), k) == Option::Some(inserted.value),
        forall|k2: Seq<char>| k2 != k ==> #[trigger] lookup(before.insert(i, inserted), k2) == lookup(
            before,
            k2,
        ),
    decreases i,
{
    let after = before.insert(i, inserted);
    assert forall|a: int, b: int|
        0 <= a < b < after.len() implies lex_le((#[trigger] after[a]).key@, (#[trigger] after[b]).key@)
        && after[a].key@ != after[b].key@ by {
        if a < i && b < i {
            assert(after[a] == before[a]);
            assert(after[b] == before[b]);
        } else if a < i && b == i {
            assert(after[a] == before[a]);
        } else if a < i && b > i {
            assert(after[a] == before[a]);
            assert(after[b] == before[b - 1]);
            if b - 1 == i {
                assert(lex_le(before[a].key@, k));
                assert(lex_le(k, before[i].key@));
                lemma_lex_le_trans(before[a].key@, k, before[i].key@);
                if before[a].key@ == before[i].key@ {
                    assert(false);
                }
            } else {
                assert(lex_le(before[a].key@, before[i].key@));
                assert(lex_le(before[i].key@, before[b - 1].key@));
                lemma_lex_le_trans(before[a].key@, before[i].key@, before[b - 1].key@);
                if before[a].key@ == before[b - 1].key@ {
                    assert(false);
                }
            }
        } else if a == i && b > i {
            assert(after[b] == before[b - 1]);
            if b - 1 > i {
                assert(lex_le(before[i].key@, before[b - 1].key@));
                lemma_lex_le_trans(k, before[i].key@, before[b - 1].key@);
                if k == before[b - 1].key@ {
                    lemma_lex_le_antisym(k, before[i].key@);
                    assert(false);
                }
            }
        } else {
            assert(after[a] == before[a - 1]);
            assert(after[b] == before[b - 1]);
        }
    }
    if i == 0 {
        assert(after.first() == inserted);
        assert forall|k2: Seq<char>| k2 != k implies #[trigger] lookup(after, k2) == lookup(
            before,
            k2,
        ) by {
            assert(after.drop_first() =~= before);
            assert(lookup(after, k2) == lookup(after.drop_first(), k2));
        }
    } else {
        assert(after.first() == before.first());
        assert(after.first().key@ != k);
        assert(after.drop_first() =~= before.drop_first().insert(i - 1, inserted));
        assert forall|a: int, b: int|
            0 <= a < b < before.drop_first().len() implies lex_le(
            (#[trigger] before.drop_first()[a]).key@,
            (#[trigger] before.drop_first()[b]).key@,
        ) && before.drop_first()[a].key@ != before.drop_first()[b].key@ by {
            assert(before.drop_first()[a] == before[a + 1]);
            assert(before.drop_first()[b] == before[b + 1]);
        }
        assert forall|j: int| 0 <= j < i - 1 implies (#[trigger] before.drop_first()[j]).key@ != k
            && lex_le((#[trigger] before.drop_first()[j]).key@, k) by {
            assert(before.drop_first()[j] == before[j + 1]);
        }
        if i - 1 < before.drop_first().len() {
            assert(before.drop_first()[i - 1] == before[i]);
        }
        lemma_upsert_insert(before.drop_first(), i - 1, inserted, k);
        assert(lookup(after, k) == lookup(after.drop_first(), k));
        assert forall|k2: Seq<char>| k2 != k implies #[trigger] lookup(after, k2) == lookup(
            before,
            k2,
        ) by {
            if after.first().key@ != k2 {
                assert(lookup(after, k2) == lookup(after.drop_first(), k2));
                assert(lookup(before, k2) == lookup(before.drop_first(), k2));
            }
        }
    }
}

/// Everything the report aggregates for one player: the damages the player
/// took and caused and the heals received (each in timestamp order, with
/// clamped totals), the players killed, the cause of this player's own
/// death if any, the elapsed game time, and the 1-based rank.
pub struct PlayerAlterationsAggregate {
    pub damages_taken: Vec<Damage>,
    pub damages_taken_total: u32,
    pub damages_caused: Vec<Damage>,
    pub damages_caused_total: u32,
    pub heals: Vec<Heal>,
    pub heals_total: u32,
    pub kills: Vec<SimplePlayer>,
    pub killed_by: Option<DamageCause>,
    /// Elapsed milliseconds from the match start to this player's death,
    /// or to the last damage of the match if the player survived.
    pub game_duration: u64,
    pub rank: u8,
}

/// The per-player aggregates, one entry per catalog player.
pub struct PlayerAlterationsEntry {
    pub uuid: u128,
    pub alterations: PlayerAlterationsAggregate,
}

/// Damage dealt by the environment, bucketed by entity name for entity
/// causes and by cause tag for the rest.
pub struct EnvironmentalDamagesAggregate {
    pub entities: Vec<StatisticEntry>,
    pub environment: Vec<StatisticEntry>,
}

/// The aggregates bundle of the processed report.
pub struct Aggregate {
    pub global_statistics: DisplayedPlayerStatistics,
    pub players_damages: Vec<PlayerAlterationsEntry>,
    pub environmental_damages: EnvironmentalDamagesAggregate,
}

pub open spec fn taken_pred(uuid: u128) -> spec_fn(Damage) -> bool {
    |d: Damage| d.damagee.uuid == uuid
}

pub open spec fn caused_pred(uuid: u128) -> spec_fn(Damage) -> bool {
    |d: Damage|
        match d.cause {
            DamageCause::Player(c) => c.player.uuid == uuid,
            _ => false,
        }
}

pub open spec fn kill_pred(uuid: u128) -> spec_fn(Damage) -> bool {
    |d: Damage|
        d.lethal && match d.cause {
            DamageCause::Player(c) => c.player.uuid == uuid,
            _ => false,
        }
}

pub open spec fn lethal_taken_pred(uuid: u128) -> spec_fn(Damage) -> bool {
    |d: Damage| d.damagee.uuid == uuid && d.lethal
}

pub open spec fn healed_pred(uuid: u128) -> spec_fn(Heal) -> bool {
    |h: Heal| h.healed.uuid == uuid
}

pub open spec fn damage_sum(s: Seq<Damage>) -> int
    decreases s.len(),
{
    if s.len() == 0 {
        0int
    } else {
        damage_sum(s.drop_last()) + s.last().damage as int
    }
}

pub open spec fn heal_sum(s: Seq<Heal>) -> int
    decreases s.len(),
{
    if s.len() == 0 {
        0int
    } else {
        heal_sum(s.drop_last()) + s.last().heal as int
    }
}

proof fn lemma_damage_sum_nonneg(s: Seq<Damage>)
    ensures
        damage_sum(s) >= 0,
    decreases s.len(),
{
    if s.len() > 0 {
        lemma_damage_sum_nonneg(s.drop_last());
    }
}

proof fn lemma_heal_sum_nonneg(s: Seq<Heal>)
    ensures
        heal_sum(s) >= 0,
    decreases s.len(),
{
    if s.len() > 0 {
        lemma_heal_sum_nonneg(s.drop_last());
    }
}

pub open spec fn opt_cause_like(a: Option<DamageCause>, b: Option<DamageCause>) -> bool {
    match (a, b) {
        (Option::None, Option::None) => true,
        (Option::Some(x), Option::Some(y)) => cause_eq(x, y),
        _ => false,
    }
}

/// The elapsed game time of a player: up to the player's own lethal damage
/// if one exists, else up to the last damage of the whole match, else zero.
pub open spec fn game_duration_spec(uuid: u128, damages: Seq<Damage>, begin: i64) -> u64 {
    let lt = damages.filter(lethal_taken_pred(uuid));
    if lt.len() > 0 {
        spec_since(lt.last().date, begin)
    } else if damages.len() > 0 {
        spec_since(damages.last().date, begin)
    } else {
        0u64
    }
}

/// What the alterations aggregate of one player guarantees, given the
/// normalized, timestamp-sorted damages and heals of the match and the
/// player's rank: the damage and heal lists taken, caused and received by
/// the player, each in timestamp order.
pub open spec fn alterations_ok(
    uuid: u128,
    damages: Seq<Damage>,
    heals: Seq<Heal>,
    rank: u8,
    begin: i64,
    a: PlayerAlterationsAggregate,
) -> bool {
    &&& seq_sorted(a.damages_taken@)
    &&& seq_sorted(a.damages_caused@)
    &&& seq_sorted(a.heals@)
    &&& damages_like(a.damages_taken@, damages.filter(taken_pred(uuid)))
    &&& a.damages_taken_total == clip_u32(damage_sum(damages.filter(taken_pred(uuid))))
    &&& damages_like(a.damages_caused@, damages.filter(caused_pred(uuid)))
    &&& a.damages_caused_total == clip_u32(damage_sum(damages.filter(caused_pred(uuid))))
    &&& a.heals@ == heals.filter(healed_pred(uuid))
    &&& a.heals_total == clip_u32(heal_sum(heals.filter(healed_pred(uuid))))
    &&& a.kills@ == damages.filter(kill_pred(uuid)).map_values(|d: Damage| d.damagee)
    &&& opt_cause_like(
        a.killed_by,
        if damages.filter(lethal_taken_pred(uuid)).len() > 0 {
            Option::Some(damages.filter(lethal_taken_pred(uuid)).last().cause)
        } else {
            Option::None
        },
    )
    &&& a.game_duration == game_duration_spec(uuid, damages, begin)
    &&& a.rank == rank
}

/// Builds the alterations aggregate of one player from the normalized
/// damages and heals of the match, which must already be in timestamp
/// order; the filtered sequences are then in timestamp order too.
#[verifier::loop_isolation(false)]
pub fn aggregate_player_alterations(
    uuid: u128,
    damages: &Vec<Damage>,
    heals: &Vec<Heal>,
    rank: u8,
    begin: i64,
) -> (a: PlayerAlterationsAggregate)
    requires
        seq_sorted(damages@),
        seq_sorted(heals@),
    ensures
        alterations_ok(uuid, damages@, heals@, rank, begin, a),
{
    let ghost tp = taken_pred(uuid);
    let ghost cp = caused_pred(uuid);
    let ghost kp = kill_pred(uuid);
    let ghost lp = lethal_taken_pred(uuid);
    let mut damages_taken: Vec<Damage> = Vec::new();
    let mut damages_caused: Vec<Damage> = Vec::new();
    let mut kills: Vec<SimplePlayer> = Vec::new();
    let mut killed_by: Option<DamageCause> = Option::None;
    let mut last_lethal_date: Option<i64> = Option::None;
    let mut taken_total: u32 = 0;
    let mut caused_total: u32 = 0;
    let mut i: usize = 0;
    proof {
        reveal(Seq::filter);
        assert(damages@.take(0int) =~= Seq::<Damage>::empty());
    }
    while i < damages.len()
        invariant
            i <= damages@.len(),
            damages_like(damages_taken@, damages@.take(i as int).filter(tp)),
            taken_total == clip_u32(damage_sum(damages@.take(i as int).filter(tp))),
            damages_like(damages_caused@, damages@.take(i as int).filter(cp)),
            caused_total == clip_u32(damage_sum(damages@.take(i as int).filter(cp))),
            kills@ == damages@.take(i as int).filter(kp).map_values(|d: Damage| d.damagee),
            opt_cause_like(
                killed_by,
                if damages@.take(i as int).filter(lp).len() > 0 {
                    Option::Some(damages@.take(i as int).filter(lp).last().cause)
                } else {
                    Option::None
                },
            ),
            last_lethal_date == (if damages@.take(i as int).filter(lp).len() > 0 {
                Option::Some(damages@.take(i as int).filter(lp).last().date)
            } else {
                Option::<i64>::None
            }),
        decreases damages@.len() - i,
    {
        let d = &damages[i];
        proof {
            let pre = damages@.take(i as int);
            let post = damages@.take(i + 1);
            assert(post.drop_last() =~= pre);
            assert(post.last() == damages@[i as int]);
            lemma_damage_sum_nonneg(pre.filter(tp));
            lemma_damage_sum_nonneg(pre.filter(cp));
        }
        let taken = d.damagee.uuid == uuid;
        let caused = match &d.cause {
            DamageCause::Player(c) => c.player.uuid == uuid,
            _ => false,
        };
        if taken {
            damages_taken.push(d.deep_clone());
            taken_total = add_counts(taken_total, d.damage as u32);
            proof {
                let pre = damages@.take(i as int);
                assert(damage_sum(pre.filter(tp).push(damages@[i as int])) == damage_sum(
                    pre.filter(tp),
                ) + damages@[i as int].damage) by {
                    assert(pre.filter(tp).push(damages@[i as int]).drop_last() =~= pre.filter(tp));
                }
            }
        }
        if caused {
            damages_caused.push(d.deep_clone());
            caused_total = add_counts(caused_total, d.damage as u32);
            proof {
                let pre = damages@.take(i as int);
                assert(damage_sum(pre.filter(cp).push(damages@[i as int])) == damage_sum(
                    pre.filter(cp),
                ) + damages@[i as int].damage) by {
                    assert(pre.filter(cp).push(damages@[i as int]).drop_last() =~= pre.filter(cp));
                }
            }
        }
        if caused && d.lethal {
            kills.push(d.damagee.deep_clone());
            proof {
                let pre = damages@.take(i as int);
                assert(kills@ =~= pre.filter(kp).push(damages@[i as int]).map_values(
                    |d2: Damage| d2.damagee,
                ));
            }
        }
        if taken && d.lethal {
            killed_by = Option::Some(d.cause.deep_clone());
            last_lethal_date = Option::Some(d.date);
        }
        i = i + 1;
    }
    proof {
        assert(damages@.take(i as int) =~= damages@);
    }
    let mut heals_out: Vec<Heal> = Vec::new();
    let mut heals_total: u32 = 0;
    let ghost hp = healed_pred(uuid);
    let mut j: usize = 0;
    proof {
        reveal(Seq::filter);
        assert(heals@.take(0int) =~= Seq::<Heal>::empty());
    }
    while j < heals.len()
        invariant
            j <= heals@.len(),
            heals_out@ == heals@.take(j as int).filter(hp),
            heals_total == clip_u32(heal_sum(heals@.take(j as int).filter(hp))),
        decreases heals@.len() - j,
    {
        let h = &heals[j];
        proof {
            let pre = heals@.take(j as int);
            let post = heals@.take(j + 1);
            assert(post.drop_last() =~= pre);
            assert(post.last() == heals@[j as int]);
            lemma_heal_sum_nonneg(pre.filter(hp));
        }
        if h.healed.uuid == uuid {
            heals_out.push(h.deep_clone());
            heals_total = add_counts(heals_total, h.heal as u32);
            proof {
                let pre = heals@.take(j as int);
                assert(heal_sum(pre.filter(hp).push(heals@[j as int])) == heal_sum(pre.filter(hp))
                    + heals@[j as int].heal) by {
                    assert(pre.filter(hp).push(heals@[j as int]).drop_last() =~= pre.filter(hp));
                }
            }
        }
        j = j + 1;
    }
    proof {
        assert(heals@.take(j as int) =~= heals@);
    }
    let game_duration = match last_lethal_date {
        Option::Some(date) => since(date, begin),
        Option::None => {
            if damages.len() > 0 {
                let last = damages.len() - 1;
                proof {
                    assert(damages@[last as int] == damages@.last());
                }
                since(damages[last].date, begin)
            } else {
                0
            }
        },
    };
    proof {
        lemma_filter_sorted(damages@, tp);
        lemma_filter_sorted(damages@, cp);
        lemma_filter_sorted(heals@, hp);
        assert forall|a: int, b: int|
            0 <= a < b < damages_taken@.len() implies #[trigger] damages_taken@[a].le_spec(
            &damages_taken@[b]) by {
            assert(damage_like(damages_taken@[a], damages@.filter(tp)[a]));
            assert(damage_like(damages_taken@[b], damages@.filter(tp)[b]));
            assert(damages@.filter(tp)[a].le_spec(&damages@.filter(tp)[b]));
        }
        assert forall|a: int, b: int|
            0 <= a < b < damages_caused@.len() implies #[trigger] damages_caused@[a].le_spec(
            &damages_caused@[b]) by {
            assert(damage_like(damages_caused@[a], damages@.filter(cp)[a]));
            assert(damage_like(damages_caused@[b], damages@.filter(cp)[b]));
            assert(damages@.filter(cp)[a].le_spec(&damages@.filter(cp)[b]));
        }
    }
    PlayerAlterationsAggregate {
        damages_taken,
        damages_taken_total: taken_total,
        damages_caused,
        damages_caused_total: caused_total,
        heals: heals_out,
        heals_total,
        kills,
        killed_by,
        game_duration,
        rank,
    }
}

/// One death for the ranking: when it happened and who died.
#[derive(Debug, Clone, Copy, PartialEq, Eq, Structural)]
pub struct DeadEntry {
    pub date: i64,
    pub uuid: u128,
}

/// Deaths are ranked most recent first.
impl TotalOrdered for DeadEntry {
    open spec fn le_spec(&self, other: &Self) -> bool {
        other.date <= self.date
    }

    proof fn lemma_total(a: &Self, b: &Self) {
    }

    proof fn lemma_trans(a: &Self, b: &Self, c: &Self) {
    }

    fn le(&self, other: &Self) -> (r: bool) {
        other.date <= self.date
    }
}

pub open spec fn lethal_pred() -> spec_fn(Damage) -> bool {
    |d: Damage| d.lethal
}

/// The deaths of the match: one entry per lethal damage, in damage order.
pub open spec fn dead_pairs(damages: Seq<Damage>) -> Seq<DeadEntry> {
    damages.filter(lethal_pred()).map_values(
        |d: Damage| DeadEntry { date: d.date, uuid: d.damagee.uuid },
    )
}

/// Whether `deads` lists the damagees of the lethal damages in reverse
/// chronological order (ties in some order).
pub open spec fn is_ranked_deads(damages: Seq<Damage>, deads: Seq<u128>) -> bool {
    exists|s: Seq<DeadEntry>|
        {
            &&& s.to_multiset() == dead_pairs(damages).to_multiset()
            &&& crate::order::seq_sorted(s)
            &&& deads == s.map_values(|e: DeadEntry| e.uuid)
        }
}

/// The last position an identifier takes in the ranking chain, `-1` when
/// it never appears.
pub open spec fn last_index_of(chain: Seq<u128>, uuid: u128) -> int
    decreases chain.len(),
{
    if chain.len() == 0 {
        -1
    } else if chain.last() == uuid {
        chain.len() - 1
    } else {
        last_index_of(chain.drop_last(), uuid)
    }
}

pub open spec fn player_uuids(players: Seq<Player>) -> Seq<u128> {
    players.map_values(|p: Player| p.uuid)
}

pub open spec fn survivor_pred(deads: Seq<u128>) -> spec_fn(u128) -> bool {
    |u: u128| !deads.contains(u)
}

/// The ranking chain: the players who never died, in catalog order, then
/// the deaths in reverse chronological order. A position in this chain,
/// 1-based, is the player's rank; a repeated identifier takes its last
/// position.
pub open spec fn rank_chain(players: Seq<Player>, deads: Seq<u128>) -> Seq<u128> {
    player_uuids(players).filter(survivor_pred(deads)) + deads
}

pub open spec fn clip_u8(n: int) -> u8 {
    if n > u8::MAX {
        u8::MAX
    } else if n < 0 {
        0u8
    } else {
        n as u8
    }
}

/// The rank of a player: its 1-based last position in the ranking chain,
/// zero if it never appears.
pub open spec fn rank_of(players: Seq<Player>, deads: Seq<u128>, uuid: u128) -> u8 {
    clip_u8(last_index_of(rank_chain(players, deads), uuid) + 1)
}

/// The damagees of the lethal damages, most recent death first.
#[verifier::loop_isolation(false)]
fn ranked_dead_uuids(damages: &Vec<Damage>) -> (deads: Vec<u128>)
    ensures
        is_ranked_deads(damages@, deads@),
{
    let ghost lp = lethal_pred();
    let ghost f = |d: Damage| DeadEntry { date: d.date, uuid: d.damagee.uuid };
    let mut pairs: Vec<DeadEntry> = Vec::new();
    let mut i: usize = 0;
    proof {
        reveal(Seq::filter);
        assert(damages@.take(0int) =~= Seq::<Damage>::empty());
    }
    while i < damages.len()
        invariant
            i <= damages@.len(),
            pairs@ == damages@.take(i as int).filter(lp).map_values(f),
        decreases damages@.len() - i,
    {
        proof {
            let pre = damages@.take(i as int);
            let post = damages@.take(i + 1);
            assert(post.drop_last() =~= pre);
            assert(post.last() == damages@[i as int]);
        }
        if damages[i].lethal {
            pairs.push(DeadEntry { date: damages[i].date, uuid: damages[i].damagee.uuid });
            proof {
                let pre = damages@.take(i as int);
                assert(pairs@ =~= pre.filter(lp).push(damages@[i as int]).map_values(f));
            }
        }
        i = i + 1;
    }
    proof {
        assert(damages@.take(i as int) =~= damages@);
    }
    let sorted = sort_total(pairs);
    let mut deads: Vec<u128> = Vec::new();
    let mut k: usize = 0;
    while k < sorted.len()
        invariant
            k <= sorted@.len(),
            deads@ == sorted@.take(k as int).map_values(|e: DeadEntry| e.uuid),
        decreases sorted@.len() - k,
    {
        deads.push(sorted[k].uuid);
        k = k + 1;
        proof {
            assert(deads@ =~= sorted@.take(k as int).map_values(|e: DeadEntry| e.uuid));
        }
    }
    proof {
        assert(sorted@.take(k as int) =~= sorted@);
        assert(is_ranked_deads(damages@, deads@)) by {
            assert(sorted@.to_multiset() == dead_pairs(damages@).to_multiset());
            assert(crate::order::seq_sorted(sorted@));
            assert(deads@ == sorted@.map_values(|e: DeadEntry| e.uuid));
        }
    }
    deads
}

/// The 1-based rank a player takes from its last position in the ranking
/// chain, zero if it never appears.
#[verifier::loop_isolation(false)]
fn rank_in_chain(chain: &Vec<u128>, uuid: u128) -> (r: u8)
    ensures
        r == clip_u8(last_index_of(chain@, uuid) + 1),
{
    let mut j: usize = chain.len();
    proof {
        assert(chain@.take(j as int) =~= chain@);
    }
    while j > 0
        invariant
            j <= chain@.len(),
            last_index_of(chain@, uuid) == last_index_of(chain@.take(j as int), uuid),
        decreases j,
    {
        j = j - 1;
        proof {
            assert(chain@.take(j + 1).drop_last() =~= chain@.take(j as int));
            assert(chain@.take(j + 1).last() == chain@[j as int]);
        }
        if chain[j] == uuid {
            if j >= 255 {
                return 255;
            }
            return (j + 1) as u8;
        }
    }
    0
}

/// Builds the per-player aggregates: one entry per catalog player, in
/// catalog order, each with the player's alterations and rank. Ranks go
/// first to the players who never died, in catalog order, then through the
/// deaths from the most recent to the earliest.
#[verifier::loop_isolation(false)]
pub fn aggregate_alterations(
    players: &Catalog,
    damages: &Vec<Damage>,
    heals: &Vec<Heal>,
    begin: i64,
) -> (r: Vec<PlayerAlterationsEntry>)
    requires
        seq_sorted(damages@),
        seq_sorted(heals@),
    ensures
        r@.len() == players.players@.len(),
        exists|deads: Seq<u128>|
            {
                &&& #[trigger] is_ranked_deads(damages@, deads)
                &&& forall|i: int|
                    0 <= i < r@.len() ==> (#[trigger] r@[i]).uuid == players.players@[i].uuid
                        && alterations_ok(
                        r@[i].uuid,
                        damages@,
                        heals@,
                        rank_of(players.players@, deads, r@[i].uuid),
                        begin,
                        r@[i].alterations,
                    )
            },
{
    let deads = ranked_dead_uuids(damages);
    let ghost dv = deads@;
    let ghost sp = survivor_pred(dv);
    let mut chain: Vec<u128> = Vec::new();
    let mut i: usize = 0;
    proof {
        reveal(Seq::filter);
        assert(players.players@.take(0int) =~= Seq::<Player>::empty());
    }
    while i < players.players.len()
        invariant
            i <= players.players@.len(),
            chain@ == player_uuids(players.players@.take(i as int)).filter(sp),
        decreases players.players@.len() - i,
    {
        proof {
            let pre = player_uuids(players.players@.take(i as int));
            let post = player_uuids(players.players@.take(i + 1));
            assert(post.drop_last() =~= pre);
            assert(post.last() == players.players@[i as int].uuid);
        }
        if !crate::catalog::contains_uuid(&deads, players.players[i].uuid) {
            chain.push(players.players[i].uuid);
        }
        i = i + 1;
    }
    proof {
        assert(players.players@.take(i as int) =~= players.players@);
    }
    let mut tail = deads;
    chain.append(&mut tail);
    proof {
        assert(chain@ == rank_chain(players.players@, dv));
    }
    let mut r: Vec<PlayerAlterationsEntry> = Vec::new();
    let mut p: usize = 0;
    while p < players.players.len()
        invariant
            p <= players.players@.len(),
            r@.len() == p,
            chain@ == rank_chain(players.players@, dv),
            forall|m: int|
                0 <= m < p ==> (#[trigger] r@[m]).uuid == players.players@[m].uuid
                    && alterations_ok(
                    r@[m].uuid,
                    damages@,
                    heals@,
                    rank_of(players.players@, dv, r@[m].uuid),
                    begin,
                    r@[m].alterations,
                ),
        decreases players.players@.len() - p,
    {
        let uuid = players.players[p].uuid;
        let rank = rank_in_chain(&chain, uuid);
        let alterations = aggregate_player_alterations(uuid, damages, heals, rank, begin);
        r.push(PlayerAlterationsEntry { uuid, alterations });
        p = p + 1;
    }
    proof {
        assert(is_ranked_deads(damages@, dv));
    }
    r
}

/// The exact damage total an entity name accounts for.
pub open spec fn entity_total(damages: Seq<Damage>, name: Seq<char>) -> int
    decreases damages.len(),
{
    if damages.len() == 0 {
        0int
    } else {
        entity_total(damages.drop_last(), name) + (match damages.last().cause {
            DamageCause::Entity(e) => if e.entity@ == name {
                damages.last().damage as int
            } else {
                0int
            },
            _ => 0int,
        })
    }
}

pub open spec fn has_entity(damages: Seq<Damage>, name: Seq<char>) -> bool {
    exists|i: int|
        0 <= i < damages.len() && match (#[trigger] damages[i]).cause {
            DamageCause::Entity(e) => e.entity@ == name,
            _ => false,
        }
}

pub open spec fn is_environmental(c: DamageCause) -> bool {
    !(c is Player) && !(c is Entity)
}

/// The exact damage total an environmental cause tag accounts for.
pub open spec fn tag_total(damages: Seq<Damage>, tag: Seq<char>) -> int
    decreases damages.len(),
{
    if damages.len() == 0 {
        0int
    } else {
        tag_total(damages.drop_last(), tag) + (if is_environmental(damages.last().cause)
            && cause_tag(damages.last().cause) == tag {
            damages.last().damage as int
        } else {
            0int
        })
    }
}

pub open spec fn has_tag(damages: Seq<Damage>, tag: Seq<char>) -> bool {
    exists|i: int|
        0 <= i < damages.len() && is_environmental((#[trigger] damages[i]).cause) && cause_tag(
            damages[i].cause,
        ) == tag
}

proof fn lemma_entity_total_nonneg(damages: Seq<Damage>, name: Seq<char>)
    ensures
        entity_total(damages, name) >= 0,
    decreases damages.len(),
{
    if damages.len() > 0 {
        lemma_entity_total_nonneg(damages.drop_last(), name);
    }
}

proof fn lemma_tag_total_nonneg(damages: Seq<Damage>, tag: Seq<char>)
    ensures
        tag_total(damages, tag) >= 0,
    decreases damages.len(),
{
    if damages.len() > 0 {
        lemma_tag_total_nonneg(damages.drop_last(), tag);
    }
}

/// What the environmental damage breakdown guarantees: every damage not
/// caused by a player is bucketed by entity name (for entity causes) or by
/// cause tag (for the rest), each bucket holding the clamped total of its
/// damages, keyed in ascending order.
pub open spec fn environmental_ok(damages: Seq<Damage>, env: EnvironmentalDamagesAggregate) -> bool {
    &&& strictly_key_sorted(env.entities@)
    &&& forall|i: int|
        0 <= i < env.entities@.len() ==> has_entity(damages, (#[trigger] env.entities@[i]).key@)
            && env.entities@[i].value == clip_u32(entity_total(damages, env.entities@[i].key@))
    &&& forall|n: Seq<char>| #[trigger] has_entity(damages, n) ==> has_key(env.entities@, n)
    &&& strictly_key_sorted(env.environment@)
    &&& forall|i: int|
        0 <= i < env.environment@.len() ==> has_tag(damages, (#[trigger] env.environment@[i]).key@)
            && env.environment@[i].value == clip_u32(tag_total(damages, env.environment@[i].key@))
    &&& forall|t: Seq<char>| #[trigger] has_tag(damages, t) ==> has_key(env.environment@, t)
}

/// Buckets all damage not caused by a player: entity causes by entity
/// name, environmental causes by cause tag, totals clamped.
#[verifier::loop_isolation(false)]
pub fn aggregate_environmental_damages(damages: &Vec<Damage>) -> (env:
    EnvironmentalDamagesAggregate)
    ensures
        environmental_ok(damages@, env),
{
    let mut entities: Vec<StatisticEntry> = Vec::new();
    let mut environment: Vec<StatisticEntry> = Vec::new();
    let mut i: usize = 0;
    proof {
        assert(damages@.take(0int) =~= Seq::<Damage>::empty());
    }
    while i < damages.len()
        invariant
            i <= damages@.len(),
            strictly_key_sorted(entities@),
            strictly_key_sorted(environment@),
            forall|k: Seq<char>| #[trigger] lookup(entities@, k) == (if has_entity(
                damages@.take(i as int),
                k,
            ) {
                Option::Some(clip_u32(entity_total(damages@.take(i as int), k)))
            } else {
                Option::<u32>::None
            }),
            forall|k: Seq<char>| #[trigger] lookup(environment@, k) == (if has_tag(
                damages@.take(i as int),
                k,
            ) {
                Option::Some(clip_u32(tag_total(damages@.take(i as int), k)))
            } else {
                Option::<u32>::None
            }),
        decreases damages@.len() - i,
    {
        let d = &damages[i];
        let ghost pre = damages@.take(i as int);
        let ghost post = damages@.take(i + 1);
        proof {
            assert(post.drop_last() =~= pre);
            assert(post.last() == damages@[i as int]);
        }
        match &d.cause {
            DamageCause::Player(_) => {
                proof {
                    lemma_env_step_unchanged(pre, post, damages@[i as int]);
                }
            },
            DamageCause::Entity(e) => {
                let ghost ents_before = entities@;
                let ghost ek = e.entity@;
                upsert_entry(&mut entities, e.entity.as_str(), d.damage as u32);
                proof {
                    lemma_env_step_entity(pre, post, damages@[i as int], ek);
                    assert forall|k: Seq<char>| #[trigger] lookup(entities@, k) == (if has_entity(
                        post,
                        k,
                    ) {
                        Option::Some(clip_u32(entity_total(post, k)))
                    } else {
                        Option::<u32>::None
                    }) by {
                        if k == ek {
                            if has_entity(pre, k) {
                                lemma_entity_total_nonneg(pre, k);
                                lemma_clip_add(entity_total(pre, k), damages@[i as int].damage as u32);
                            } else {
                                lemma_entity_total_absent(pre, k);
                            }
                        } else {
                            assert(lookup(entities@, k) == lookup(ents_before, k));
                        }
                    }
                }
            },
            _ => {
                let tag = d.cause.tag_name();
                let ghost tk = cause_tag(damages@[i as int].cause);
                let ghost env_before = environment@;
                upsert_entry(&mut environment, tag.as_str(), d.damage as u32);
                proof {
                    lemma_env_step_tag(pre, post, damages@[i as int], tk);
                    assert forall|k: Seq<char>| #[trigger] lookup(environment@, k) == (if has_tag(
                        post,
                        k,
                    ) {
                        Option::Some(clip_u32(tag_total(post, k)))
                    } else {
                        Option::<u32>::None
                    }) by {
                        if k == tk {
                            if has_tag(pre, k) {
                                lemma_tag_total_nonneg(pre, k);
                                lemma_clip_add(tag_total(pre, k), damages@[i as int].damage as u32);
                            } else {
                                lemma_tag_total_absent(pre, k);
                            }
                        } else {
                            assert(lookup(environment@, k) == lookup(env_before, k));
                        }
                    }
                }
            },
        }
        i = i + 1;
    }
    proof {
        assert(damages@.take(i as int) =~= damages@);
    }
    let env = EnvironmentalDamagesAggregate { entities, environment };
    proof {
        assert forall|m: int|
            0 <= m < env.entities@.len() implies has_entity(
            damages@,
            (#[trigger] env.entities@[m]).key@,
        ) && env.entities@[m].value == clip_u32(entity_total(damages@, env.entities@[m].key@)) by {
            lemma_lookup_at(env.entities@, m);
        }
        assert forall|n: Seq<char>| #[trigger] has_entity(damages@, n) implies has_key(
            env.entities@,
            n,
        ) by {
            lemma_lookup_some(env.entities@, n);
        }
        assert forall|m: int|
            0 <= m < env.environment@.len() implies has_tag(
            damages@,
            (#[trigger] env.environment@[m]).key@,
        ) && env.environment@[m].value == clip_u32(tag_total(damages@, env.environment@[m].key@)) by {
            lemma_lookup_at(env.environment@, m);
        }
        assert forall|t: Seq<char>| #[trigger] has_tag(damages@, t) implies has_key(
            env.environment@,
            t,
        ) by {
            lemma_lookup_some(env.environment@, t);
        }
    }
    env
}

proof fn lemma_entity_total_absent(damages: Seq<Damage>, name: Seq<char>)
    requires
        !has_entity(damages, name),
    ensures
        entity_total(damages, name) == 0,
    decreases damages.len(),
{
    if damages.len() > 0 {
        let dl = damages.drop_last();
        assert forall|j: int|
            0 <= j < dl.len() implies !(match (#[trigger] dl[j]).cause {
            DamageCause::Entity(e) => e.entity@ == name,
            _ => false,
        }) by {
            assert(dl[j] == damages[j]);
        }
        lemma_entity_total_absent(dl, name);
        assert(!(match damages[damages.len() - 1].cause {
            DamageCause::Entity(e) => e.entity@ == name,
            _ => false,
        }));
    }
}

proof fn lemma_tag_total_absent(damages: Seq<Damage>, tag: Seq<char>)
    requires
        !has_tag(damages, tag),
    ensures
        tag_total(damages, tag) == 0,
    decreases damages.len(),
{
    if damages.len() > 0 {
        let dl = damages.drop_last();
        assert forall|j: int|
            0 <= j < dl.len() implies !(is_environmental((#[trigger] dl[j]).cause) && cause_tag(
            dl[j].cause,
        ) == tag) by {
            assert(dl[j] == damages[j]);
        }
        lemma_tag_total_absent(dl, tag);
        assert(!(is_environmental(damages[damages.len() - 1].cause) && cause_tag(
            damages[damages.len() - 1].cause,
        ) == tag));
    }
}

/// A damage extends the prefix: how the per-key facts carry over for keys
/// the damage does not touch, and for a player-caused damage at all.
proof fn lemma_env_step_unchanged(pre: Seq<Damage>, post: Seq<Damage>, d: Damage)
    requires
        post.drop_last() == pre,
        post.len() == pre.len() + 1,
        post.last() == d,
        d.cause is Player,
    ensures
        forall|k: Seq<char>| #[trigger] has_entity(post, k) == has_entity(pre, k),
        forall|k: Seq<char>| #[trigger] entity_total(post, k) == entity_total(pre, k),
        forall|k: Seq<char>| #[trigger] has_tag(post, k) == has_tag(pre, k),
        forall|k: Seq<char>| #[trigger] tag_total(post, k) == tag_total(pre, k),
{
    assert forall|k: Seq<char>| #[trigger] has_entity(post, k) == has_entity(pre, k) by {
        lemma_has_entity_step(pre, post, d, k);
    }
    assert forall|k: Seq<char>| #[trigger] has_tag(post, k) == has_tag(pre, k) by {
        lemma_has_tag_step(pre, post, d, k);
    }
}

proof fn lemma_has_entity_step(pre: Seq<Damage>, post: Seq<Damage>, d: Damage, k: Seq<char>)
    requires
        post.drop_last() == pre,
        post.len() == pre.len() + 1,
        post.last() == d,
    ensures
        has_entity(post, k) == (has_entity(pre, k) || (match d.cause {
            DamageCause::Entity(e) => e.entity@ == k,
            _ => false,
        })),
{
    if has_entity(pre, k) {
        let q = choose|q: int|
            0 <= q < pre.len() && match (#[trigger] pre[q]).cause {
                DamageCause::Entity(e) => e.entity@ == k,
                _ => false,
            };
        assert(post[q] == pre[q]);
        assert(has_entity(post, k));
    }
    match d.cause {
        DamageCause::Entity(e) => {
            if e.entity@ == k {
                assert(post[post.len() - 1] == d);
                assert(has_entity(post, k));
            }
        },
        _ => {},
    }
    if has_entity(post, k) {
        let q = choose|q: int|
            0 <= q < post.len() && match (#[trigger] post[q]).cause {
                DamageCause::Entity(e) => e.entity@ == k,
                _ => false,
            };
        if q < pre.len() {
            assert(pre[q] == post[q]);
            assert(has_entity(pre, k));
        } else {
            assert(post[q] == d);
        }
    }
}

proof fn lemma_has_tag_step(pre: Seq<Damage>, post: Seq<Damage>, d: Damage, k: Seq<char>)
    requires
        post.drop_last() == pre,
        post.len() == pre.len() + 1,
        post.last() == d,
    ensures
        has_tag(post, k) == (has_tag(pre, k) || (is_environmental(d.cause) && cause_tag(d.cause)
            == k)),
{
    if has_tag(pre, k) {
        let q = choose|q: int|
            0 <= q < pre.len() && is_environmental((#[trigger] pre[q]).cause) && cause_tag(
                pre[q].cause,
            ) == k;
        assert(post[q] == pre[q]);
        assert(has_tag(post, k));
    }
    if is_environmental(d.cause) && cause_tag(d.cause) == k {
        assert(post[post.len() - 1] == d);
        assert(has_tag(post, k));
    }
    if has_tag(post, k) {
        let q = choose|q: int|
            0 <= q < post.len() && is_environmental((#[trigger] post[q]).cause) && cause_tag(
                post[q].cause,
            ) == k;
        if q < pre.len() {
            assert(pre[q] == post[q]);
            assert(has_tag(pre, k));
        } else {
            assert(post[q] == d);
        }
    }
}

/// A damage by an entity extends the prefix: the entity's own total grows
/// by the damage, every other key is untouched.
proof fn lemma_env_step_entity(pre: Seq<Damage>, post: Seq<Damage>, d: Damage, ek: Seq<char>)
    requires
        post.drop_last() == pre,
        post.len() == pre.len() + 1,
        post.last() == d,
        match d.cause {
            DamageCause::Entity(e) => e.entity@ == ek,
            _ => false,
        },
    ensures
        has_entity(post, ek),
        entity_total(post, ek) == entity_total(pre, ek) + d.damage,
        forall|k: Seq<char>|
            k != ek ==> #[trigger] has_entity(post, k) == has_entity(pre, k) && entity_total(
                post,
                k,
            ) == entity_total(pre, k),
        forall|k: Seq<char>| #[trigger] has_tag(post, k) == has_tag(pre, k),
        forall|k: Seq<char>| #[trigger] tag_total(post, k) == tag_total(pre, k),
{
    lemma_has_entity_step(pre, post, d, ek);
    assert forall|k: Seq<char>|
        k != ek implies #[trigger] has_entity(post, k) == has_entity(pre, k) && entity_total(
        post,
        k,
    ) == entity_total(pre, k) by {
        lemma_has_entity_step(pre, post, d, k);
    }
    assert forall|k: Seq<char>| #[trigger] has_tag(post, k) == has_tag(pre, k) by {
        lemma_has_tag_step(pre, post, d, k);
    }
}

/// An environmental damage extends the prefix: its tag's total grows by
/// the damage, every other key is untouched.
proof fn lemma_env_step_tag(pre: Seq<Damage>, post: Seq<Damage>, d: Damage, tk: Seq<char>)
    requires
        post.drop_last() == pre,
        post.len() == pre.len() + 1,
        post.last() == d,
        is_environmental(d.cause),
        cause_tag(d.cause) == tk,
    ensures
        has_tag(post, tk),
        tag_total(post, tk) == tag_total(pre, tk) + d.damage,
        forall|k: Seq<char>|
            k != tk ==> #[trigger] has_tag(post, k) == has_tag(pre, k) && tag_total(post, k)
                == tag_total(pre, k),
        forall|k: Seq<char>| #[trigger] has_entity(post, k) == has_entity(pre, k),
        forall|k: Seq<char>| #[trigger] entity_total(post, k) == entity_total(pre, k),
{
    lemma_has_tag_step(pre, post, d, tk);
    assert forall|k: Seq<char>|
        k != tk implies #[trigger] has_tag(post, k) == has_tag(pre, k) && tag_total(post, k)
        == tag_total(pre, k) by {
        lemma_has_tag_step(pre, post, d, k);
    }
    assert forall|k: Seq<char>| #[trigger] has_entity(post, k) == has_entity(pre, k) by {
        lemma_has_entity_step(pre, post, d, k);
    }
}

/// One statistic group of one player, as the global aggregation selects
/// it: 0 the generic counters, 1 the used, 2 the mined, 3 the picked-up.
pub open spec fn pick_group(p: Player, which: int) -> Option<Vec<StatisticEntry>> {
    match p.statistics {
        Option::Some(st) => if which == 0 {
            st.generic
        } else if which == 1 {
            st.used
        } else if which == 2 {
            st.mined
        } else {
            st.picked_up
        },
        Option::None => Option::None,
    }
}

/// The selected statistic group of every player that carries one.
pub open spec fn picked_groups(players: Seq<Player>, which: int) -> Seq<Seq<StatisticEntry>>
    decreases players.len(),
{
    if players.len() == 0 {
        Seq::<Seq<StatisticEntry>>::empty()
    } else {
        match pick_group(players.first(), which) {
            Option::Some(g) => seq![g@] + picked_groups(players.drop_first(), which),
            Option::None => picked_groups(players.drop_first(), which),
        }
    }
}

fn clone_entries(v: &Vec<StatisticEntry>) -> (r: Vec<StatisticEntry>)
    ensures
        r@ == v@,
{
    let mut r: Vec<StatisticEntry> = Vec::new();
    let mut i: usize = 0;
    while i < v.len()
        invariant
            i <= v@.len(),
            r@ == v@.take(i as int),
        decreases v@.len() - i,
    {
        r.push(StatisticEntry { key: v[i].key.clone(), value: v[i].value });
        i = i + 1;
        proof {
            assert(r@ =~= v@.take(i as int));
        }
    }
    proof {
        assert(r@ =~= v@);
    }
    r
}

#[verifier::loop_isolation(false)]
fn collect_groups(players: &Vec<Player>, which: u8) -> (r: Vec<Vec<StatisticEntry>>)
    ensures
        group_views(r@) == picked_groups(players@, which as int),
{
    let mut r: Vec<Vec<StatisticEntry>> = Vec::new();
    let mut i: usize = 0;
    proof {
        assert(players@.skip(0) =~= players@);
        assert(group_views(r@) + picked_groups(players@.skip(0), which as int) =~= picked_groups(
            players@,
            which as int,
        ));
    }
    while i < players.len()
        invariant
            i <= players@.len(),
            picked_groups(players@, which as int) == group_views(r@) + picked_groups(
                players@.skip(i as int),
                which as int,
            ),
        decreases players@.len() - i,
    {
        proof {
            assert(players@.skip(i as int).first() == players@[i as int]);
            assert(players@.skip(i as int).drop_first() =~= players@.skip(i + 1));
        }
        let picked: Option<&Vec<StatisticEntry>> = match &players[i].statistics {
            Option::Some(st) => {
                if which == 0 {
                    st.generic.as_ref()
                } else if which == 1 {
                    st.used.as_ref()
                } else if which == 2 {
                    st.mined.as_ref()
                } else {
                    st.picked_up.as_ref()
                }
            },
            Option::None => Option::None,
        };
        match picked {
            Option::Some(g) => {
                let ghost r_before = r@;
                r.push(clone_entries(g));
                proof {
                    assert(pick_group(players@[i as int], which as int) is Some);
                    assert(group_views(r@) =~= group_views(r_before) + seq![g@]);
                    assert(picked_groups(players@.skip(i as int), which as int) == seq![
                        pick_group(players@[i as int], which as int).unwrap()@,
                    ] + picked_groups(players@.skip(i + 1), which as int));
                    assert(g@ == pick_group(players@[i as int], which as int).unwrap()@);
                    assert((group_views(r_before) + seq![g@]) + picked_groups(
                        players@.skip(i + 1),
                        which as int,
                    ) =~= group_views(r_before) + (seq![g@] + picked_groups(
                        players@.skip(i + 1),
                        which as int,
                    )));
                }
            },
            Option::None => {
                proof {
                    assert(pick_group(players@[i as int], which as int) is None);
                }
            },
        }
        i = i + 1;
    }
    proof {
        assert(picked_groups(players@.skip(i as int), which as int) =~= Seq::<
            Seq<StatisticEntry>,
        >::empty());
        assert(group_views(r@) + picked_groups(players@.skip(i as int), which as int) =~= group_views(
            r@,
        ));
    }
    r
}

/// What the global statistics guarantee: there is an aggregated bundle
/// whose four groups union the corresponding group of every player (as
/// `aggregated_group_ok` says), and the displayed statistics are shaped
/// from that bundle under the settings.
pub open spec fn global_statistics_ok(
    players: Seq<Player>,
    settings: SettingsPlayers,
    d: DisplayedPlayerStatistics,
) -> bool {
    exists|ps: PlayerStatistics|
        {
            &&& #[trigger] displayed_bundle_ok(ps, settings, d)
            &&& match ps.generic {
                Option::Some(g) => aggregated_group_ok(
                    concat_seqs(picked_groups(players, 0)),
                    g@,
                ),
                Option::None => false,
            }
            &&& match ps.used {
                Option::Some(g) => aggregated_group_ok(
                    concat_seqs(picked_groups(players, 1)),
                    g@,
                ),
                Option::None => false,
            }
            &&& match ps.mined {
                Option::Some(g) => aggregated_group_ok(
                    concat_seqs(picked_groups(players, 2)),
                    g@,
                ),
                Option::None => false,
            }
            &&& match ps.picked_up {
                Option::Some(g) => aggregated_group_ok(
                    concat_seqs(picked_groups(players, 3)),
                    g@,
                ),
                Option::None => false,
            }
        }
}

/// Unions the statistics of all catalog players into one bundle and shapes
/// it for display under the settings.
pub fn aggregate_global_statistics(players: &Vec<Player>, settings: &SettingsPlayers) -> (d:
    DisplayedPlayerStatistics)
    ensures
        global_statistics_ok(players@, *settings, d),
{
    let generic = aggregate_single_statistic_group(collect_groups(players, 0));
    let used = aggregate_single_statistic_group(collect_groups(players, 1));
    let mined = aggregate_single_statistic_group(collect_groups(players, 2));
    let picked_up = aggregate_single_statistic_group(collect_groups(players, 3));
    let ps = PlayerStatistics {
        generic: Option::Some(generic),
        used: Option::Some(used),
        mined: Option::Some(mined),
        picked_up: Option::Some(picked_up),
    };
    let d = DisplayedPlayerStatistics::calculate_displayed_statistics(&ps, settings);
    proof {
        assert(displayed_bundle_ok(ps, *settings, d));
    }
    d
}

/// What the whole aggregates bundle guarantees.
pub open spec fn aggregate_ok(
    players: Catalog,
    damages: Seq<Damage>,
    heals: Seq<Heal>,
    begin: i64,
    settings: SettingsPlayers,
    a: Aggregate,
) -> bool {
    &&& global_statistics_ok(players.players@, settings, a.global_statistics)
    &&& a.players_damages@.len() == players.players@.len()
    &&& exists|deads: Seq<u128>|
        {
            &&& #[trigger] is_ranked_deads(damages, deads)
            &&& forall|i: int|
                0 <= i < a.players_damages@.len() ==> (#[trigger] a.players_damages@[i]).uuid
                    == players.players@[i].uuid && alterations_ok(
                    a.players_damages@[i].uuid,
                    damages,
                    heals,
                    rank_of(players.players@, deads, a.players_damages@[i].uuid),
                    begin,
                    a.players_damages@[i].alterations,
                )
        }
    &&& environmental_ok(damages, a.environmental_damages)
}

impl Aggregate {
    /// Builds the aggregates bundle: the global statistics, the per-player
    /// alterations with ranks, and the environmental damage breakdown.
    pub fn from_raw(
        players: &Catalog,
        damages: &Vec<Damage>,
        heals: &Vec<Heal>,
        begin: i64,
        settings: &SettingsPlayers,
    ) -> (a: Aggregate)
        requires
            seq_sorted(damages@),
            seq_sorted(heals@),
        ensures
            aggregate_ok(*players, damages@, heals@, begin, *settings, a),
    {
        Aggregate {
            global_statistics: aggregate_global_statistics(&players.players, settings),
            players_damages: aggregate_alterations(players, damages, heals, begin),
            environmental_damages: aggregate_environmental_damages(damages),
        }
    }
}

/// Some entry of the group holds this aggregated entry's key and count.
pub open spec fn entry_matches_one_of(e: StatisticEntry, g: Seq<StatisticEntry>) -> bool {
    exists|j: int|
        0 <= j < g.len() && e.key@ == (#[trigger] g[j]).key@ && e.value == g[j].value && g[j].value
            != 0
}

/// The aggregated list holds this raw entry's key with the same count.
pub open spec fn entry_reappears(e: StatisticEntry, r: Seq<StatisticEntry>) -> bool {
    exists|i: int| 0 <= i < r.len() && (#[trigger] r[i]).key@ == e.key@ && r[i].value == e.value
}

proof fn lemma_key_total_unique(g: Seq<StatisticEntry>, j: int)
    requires
        forall|a: int, b: int|
            0 <= a < b < g.len() ==> (#[trigger] g[a]).key@ != (#[trigger] g[b]).key@,
        0 <= j < g.len(),
    ensures
        key_total(g, g[j].key@) == g[j].value,
    decreases g.len(),
{
    let k = g[j].key@;
    if j == g.len() - 1 {
        assert forall|m: int| 0 <= m < g.drop_last().len() implies (#[trigger] g.drop_last()[m]).key@
            != k by {
            assert(g.drop_last()[m] == g[m]);
        }
        lemma_key_total_absent(g.drop_last(), k);
    } else {
        let dl = g.drop_last();
        assert forall|a: int, b: int|
            0 <= a < b < dl.len() implies (#[trigger] dl[a]).key@ != (#[trigger] dl[b]).key@ by {
            assert(dl[a] == g[a]);
            assert(dl[b] == g[b]);
        }
        assert(dl[j] == g[j]);
        lemma_key_total_unique(dl, j);
        assert(g.last().key@ != k);
    }
}

/// Statistics aggregation is idempotent: aggregating the statistics of a
/// single player yields exactly that player's raw statistics with the
/// zero-valued entries removed — every aggregated entry carries the count
/// of the one raw entry with its key, and every non-zero raw entry
/// reappears with its count.
pub proof fn lemma_single_group_aggregation_idempotent(
    g: Seq<StatisticEntry>,
    r: Seq<StatisticEntry>,
)
    requires
        forall|a: int, b: int|
            0 <= a < b < g.len() ==> (#[trigger] g[a]).key@ != (#[trigger] g[b]).key@,
        aggregated_group_ok(concat_seqs(seq![g]), r),
    ensures
        forall|i: int| 0 <= i < r.len() ==> entry_matches_one_of(#[trigger] r[i], g),
        forall|j: int|
            0 <= j < g.len() && (#[trigger] g[j]).value != 0 ==> entry_reappears(g[j], r),
{
    let all = concat_seqs(seq![g]);
    assert(seq![g].first() == g);
    assert(seq![g].drop_first() =~= Seq::<Seq<StatisticEntry>>::empty());
    assert(concat_seqs(seq![g].drop_first()) =~= Seq::<StatisticEntry>::empty());
    assert(all =~= g);
    assert forall|i: int| 0 <= i < r.len() implies entry_matches_one_of(#[trigger] r[i], g) by {
        assert(has_key(g, r[i].key@));
        let j = choose|j: int| 0 <= j < g.len() && (#[trigger] g[j]).key@ == r[i].key@;
        lemma_key_total_unique(g, j);
        assert(r[i].value == clip_u32(key_total(g, r[i].key@)));
        assert(clip_u32(g[j].value as int) == g[j].value);
        assert(r[i].key@ == g[j].key@ && r[i].value == g[j].value && g[j].value != 0);
    }
    assert forall|j: int|
        0 <= j < g.len() && (#[trigger] g[j]).value != 0 implies entry_reappears(g[j], r) by {
        lemma_key_total_unique(g, j);
        assert(has_key(g, g[j].key@));
        assert(clip_u32(key_total(g, g[j].key@)) == g[j].value);
        assert(has_key(r, g[j].key@));
        let i = choose|i: int| 0 <= i < r.len() && (#[trigger] r[i]).key@ == g[j].key@;
        assert(r[i].value == clip_u32(key_total(g, r[i].key@)));
        assert(r[i].key@ == g[j].key@ && r[i].value == g[j].value);
    }
}


/// Round trip for the kills: when every damagee projection of the
/// normalized damages is the projection of its catalog entry, so is every
/// kill entry of a player's aggregate.
pub proof fn lemma_kill_projections_round_trip(
    uuid: u128,
    damages: Seq<Damage>,
    heals: Seq<Heal>,
    rank: u8,
    begin: i64,
    a: PlayerAlterationsAggregate,
    cat: Catalog,
    k: int,
)
    requires
        alterations_ok(uuid, damages, heals, rank, begin, a),
        forall|m: int|
            0 <= m < damages.len() ==> cat.spec_has((#[trigger] damages[m]).damagee.uuid)
                && damages[m].damagee == cat.spec_resolve(damages[m].damagee.uuid).simple_spec(),
        0 <= k < a.kills@.len(),
    ensures
        cat.spec_has(a.kills@[k].uuid),
        a.kills@[k] == cat.spec_resolve(a.kills@[k].uuid).simple_spec(),
{
    let fl = damages.filter(kill_pred(uuid));
    assert(a.kills@[k] == fl[k].damagee);
    crate::order::lemma_filter_contained(damages, kill_pred(uuid));
    assert(damages.contains(fl[k]));
    let i = choose|i: int| 0 <= i < damages.len() && damages[i] == fl[k];
    assert(cat.spec_has(damages[i].damagee.uuid));
    assert(damages[i].damagee == cat.spec_resolve(damages[i].damagee.uuid).simple_spec());
}

} // verus!
