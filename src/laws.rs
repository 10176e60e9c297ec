//! Properties of a run that hold for all inputs.

use vstd::prelude::*;
use crate::engine::{
    dates_of, has_position, ids_in, is_display_order, novelty_pass, precedes, run_outcome,
    same_instant, SortMode,
};
use crate::item::{entry_error, errors_of, kept, present, DisplayLine, FeedItem, RawEntry, ValidationError};
use crate::timestamp::Timestamp;

verus! {

proof fn lemma_pass_grows(ids: Seq<Seq<char>>, rec: Seq<Seq<char>>, all: bool)
    ensures
        forall|k: int| 0 <= k < ids.len() ==> novelty_pass(ids, rec, all).1.contains(#[trigger] ids[k]),
        forall|x: Seq<char>| rec.contains(x) ==> #[trigger] novelty_pass(ids, rec, all).1.contains(x),
    decreases ids.len(),
{
    if ids.len() > 0 {
        let d = ids.drop_last();
        lemma_pass_grows(d, rec, all);
        let r = novelty_pass(d, rec, all).1;
        let r2 = novelty_pass(ids, rec, all).1;
        assert forall|x: Seq<char>| r.contains(x) implies r2.contains(x) by {
            let k = choose|k: int| 0 <= k < r.len() && r[k] == x;
            assert(r2[k] == x);
        }
        assert forall|k: int| 0 <= k < ids.len() implies r2.contains(#[trigger] ids[k]) by {
            if k < ids.len() - 1 {
                assert(d[k] == ids[k]);
            } else if !r.contains(ids.last()) {
                assert(r2[r.len() as int] == ids.last());
            }
        }
    }
}

proof fn lemma_pass_all_seen(ids: Seq<Seq<char>>, rec: Seq<Seq<char>>, all: bool)
    requires
        forall|k: int| 0 <= k < ids.len() ==> rec.contains(#[trigger] ids[k]),
    ensures
        novelty_pass(ids, rec, all).1 == rec,
        all ==> novelty_pass(ids, rec, all).0.len() == ids.len(),
        !all ==> novelty_pass(ids, rec, all).0.len() == 0,
        forall|j: int|
            0 <= j < novelty_pass(ids, rec, all).0.len() ==> !(#[trigger] novelty_pass(
                ids,
                rec,
                all,
            ).0[j]).1,
    decreases ids.len(),
{
    if ids.len() > 0 {
        let d = ids.drop_last();
        assert forall|k: int| 0 <= k < d.len() implies rec.contains(#[trigger] d[k]) by {
            assert(d[k] == ids[k]);
        }
        lemma_pass_all_seen(d, rec, all);
        assert(rec.contains(ids[ids.len() - 1]));
    }
}

proof fn lemma_pass_all_new(ids: Seq<Seq<char>>, rec: Seq<Seq<char>>)
    requires
        ids.no_duplicates(),
        forall|k: int| 0 <= k < ids.len() ==> !rec.contains(#[trigger] ids[k]),
    ensures
        novelty_pass(ids, rec, false).0.len() == ids.len(),
        novelty_pass(ids, rec, false).1 == rec + ids,
    decreases ids.len(),
{
    if ids.len() == 0 {
        assert(rec + ids =~= rec);
    } else {
        let d = ids.drop_last();
        assert forall|k: int| 0 <= k < d.len() implies !rec.contains(#[trigger] d[k]) by {
            assert(d[k] == ids[k]);
        }
        lemma_pass_all_new(d, rec);
        let last = ids.last();
        assert(!rec.contains(ids[ids.len() - 1]));
        if (rec + d).contains(last) {
            let k = choose|k: int| 0 <= k < (rec + d).len() && (rec + d)[k] == last;
            if k < rec.len() {
                assert(rec[k] == last);
            } else {
                assert(ids[k - rec.len()] == last);
            }
        }
        assert((rec + d).push(last) =~= rec + ids);
    }
}

proof fn lemma_pass_no_duplicates(ids: Seq<Seq<char>>, rec: Seq<Seq<char>>, all: bool)
    requires
        rec.no_duplicates(),
    ensures
        novelty_pass(ids, rec, all).1.no_duplicates(),
    decreases ids.len(),
{
    if ids.len() > 0 {
        lemma_pass_no_duplicates(ids.drop_last(), rec, all);
        let r = novelty_pass(ids.drop_last(), rec, all).1;
        let r2 = novelty_pass(ids, rec, all).1;
        assert forall|x: int, y: int| 0 <= x < r2.len() && 0 <= y < r2.len() && x != y implies r2[x] != r2[y] by {
            if x < r.len() && y < r.len() {
            } else if x < r.len() {
                assert(r.contains(r[x]));
            } else {
                assert(r.contains(r[y]));
            }
        }
    }
}

proof fn lemma_distinct_positions(p: Seq<usize>, keys: Seq<Timestamp>, mode: SortMode)
    requires
        is_display_order(p, keys, mode),
    ensures
        forall|x: int, y: int| 0 <= x < p.len() && 0 <= y < p.len() && x != y ==> p[x] != p[y],
{
    assert forall|x: int, y: int| 0 <= x < p.len() && 0 <= y < p.len() && x != y implies p[x] != p[y] by {
        if x < y {
            assert(precedes(keys, mode, p[x] as int, p[y] as int));
        } else {
            assert(precedes(keys, mode, p[y] as int, p[x] as int));
        }
    }
}

/// Every identifier of the items is in the record after a run over them.
proof fn lemma_run_records_items(
    items: Seq<FeedItem>,
    p: Seq<usize>,
    mode: SortMode,
    rec: Seq<Seq<char>>,
    all: bool,
    now: Timestamp,
    lines: Seq<DisplayLine>,
    rec1: Seq<Seq<char>>,
)
    requires
        is_display_order(p, dates_of(items), mode),
        run_outcome(items, p, rec, all, now, lines, rec1),
    ensures
        forall|i: int| 0 <= i < items.len() ==> rec1.contains(#[trigger] items[i].id()),
{
    let ids = ids_in(items, p);
    lemma_pass_grows(ids, rec, all);
    assert forall|i: int| 0 <= i < items.len() implies rec1.contains(#[trigger] items[i].id()) by {
        assert(has_position(p, i));
        let k = choose|k: int| 0 <= k < p.len() && p[k] == i;
        assert(ids[k] == items[i].id());
    }
}

/// Idempotence: after a run without `all`, a second run over the same items,
/// in any display order, shows nothing and leaves the record as it was.
pub proof fn law_rerun_shows_nothing(
    items: Seq<FeedItem>,
    p1: Seq<usize>,
    m1: SortMode,
    p2: Seq<usize>,
    m2: SortMode,
    rec: Seq<Seq<char>>,
    now1: Timestamp,
    now2: Timestamp,
    lines1: Seq<DisplayLine>,
    rec1: Seq<Seq<char>>,
    lines2: Seq<DisplayLine>,
    rec2: Seq<Seq<char>>,
)
    requires
        is_display_order(p1, dates_of(items), m1),
        is_display_order(p2, dates_of(items), m2),
        run_outcome(items, p1, rec, false, now1, lines1, rec1),
        run_outcome(items, p2, rec1, false, now2, lines2, rec2),
    ensures
        lines2.len() == 0,
        rec2 == rec1,
{
    lemma_run_records_items(items, p1, m1, rec, false, now1, lines1, rec1);
    let ids2 = ids_in(items, p2);
    assert forall|k: int| 0 <= k < ids2.len() implies rec1.contains(#[trigger] ids2[k]) by {
        assert(ids2[k] == items[p2[k] as int].id());
    }
    lemma_pass_all_seen(ids2, rec1, false);
}

/// A first run without `all`, over items with distinct identifiers none of
/// which is in the record, shows every item, each as new.
pub proof fn law_first_run_shows_all(
    items: Seq<FeedItem>,
    p: Seq<usize>,
    mode: SortMode,
    rec: Seq<Seq<char>>,
    now: Timestamp,
    lines: Seq<DisplayLine>,
    rec1: Seq<Seq<char>>,
)
    requires
        is_display_order(p, dates_of(items), mode),
        forall|i: int, j: int| 0 <= i < j < items.len() ==> items[i].id() != items[j].id(),
        forall|i: int| 0 <= i < items.len() ==> !rec.contains(#[trigger] items[i].id()),
        run_outcome(items, p, rec, false, now, lines, rec1),
    ensures
        lines.len() == items.len(),
{
    let ids = ids_in(items, p);
    lemma_distinct_positions(p, dates_of(items), mode);
    assert forall|x: int, y: int| 0 <= x < ids.len() && 0 <= y < ids.len() && x != y implies ids[x] != ids[y] by {
        if p[x] < p[y] {
            assert(items[p[x] as int].id() != items[p[y] as int].id());
        } else {
            assert(items[p[y] as int].id() != items[p[x] as int].id());
        }
    }
    assert forall|k: int| 0 <= k < ids.len() implies !rec.contains(#[trigger] ids[k]) by {
        assert(ids[k] == items[p[k] as int].id());
    }
    lemma_pass_all_new(ids, rec);
}

/// With `all` set, a run still records every previously unseen identifier; a
/// second run with `all` over the same items shows each item as already seen
/// and appends nothing.
pub proof fn law_show_all_records_once(
    items: Seq<FeedItem>,
    p1: Seq<usize>,
    m1: SortMode,
    p2: Seq<usize>,
    m2: SortMode,
    rec: Seq<Seq<char>>,
    now1: Timestamp,
    now2: Timestamp,
    lines1: Seq<DisplayLine>,
    rec1: Seq<Seq<char>>,
    lines2: Seq<DisplayLine>,
    rec2: Seq<Seq<char>>,
)
    requires
        is_display_order(p1, dates_of(items), m1),
        is_display_order(p2, dates_of(items), m2),
        run_outcome(items, p1, rec, true, now1, lines1, rec1),
        run_outcome(items, p2, rec1, true, now2, lines2, rec2),
    ensures
        forall|i: int| 0 <= i < items.len() ==> rec1.contains(#[trigger] items[i].id()),
        rec2 == rec1,
        lines2.len() == items.len(),
        forall|j: int| 0 <= j < lines2.len() ==> !(#[trigger] lines2[j]).is_new,
{
    lemma_run_records_items(items, p1, m1, rec, true, now1, lines1, rec1);
    let ids2 = ids_in(items, p2);
    assert forall|k: int| 0 <= k < ids2.len() implies rec1.contains(#[trigger] ids2[k]) by {
        assert(ids2[k] == items[p2[k] as int].id());
    }
    lemma_pass_all_seen(ids2, rec1, true);
    let sh = novelty_pass(ids2, rec1, true).0;
    assert forall|j: int| 0 <= j < lines2.len() implies !(#[trigger] lines2[j]).is_new by {
        assert(!sh[j].1);
    }
}

/// A run never makes a record with duplicate identifiers out of one without.
pub proof fn law_record_stays_duplicate_free(ids: Seq<Seq<char>>, rec: Seq<Seq<char>>, all: bool)
    requires
        rec.no_duplicates(),
    ensures
        novelty_pass(ids, rec, all).1.no_duplicates(),
{
    lemma_pass_no_duplicates(ids, rec, all);
}

/// Two items with equal explicit identifiers, or with none and equal title and
/// link, have the same identifier.
pub proof fn law_identifier_stability(a: FeedItem, b: FeedItem)
    ensures
        (a.guid matches Some(ga) && b.guid matches Some(gb) && ga@ == gb@) ==> a.id() == b.id(),
        (a.guid is None && b.guid is None && a.title@ == b.title@ && a.link@ == b.link@) ==> a.id()
            == b.id(),
{
}

/// An identifier met a second time in a run is never novel: it is displayed
/// only when `all` is set, and then as already seen.
pub proof fn law_repeated_id_not_novel(ids: Seq<Seq<char>>, rec: Seq<Seq<char>>, all: bool, i: int, j: int)
    requires
        0 <= i < j < ids.len(),
        ids[i] == ids[j],
    ensures
        forall|m: int|
            0 <= m < novelty_pass(ids, rec, all).0.len() && (#[trigger] novelty_pass(
                ids,
                rec,
                all,
            ).0[m]).0 == j ==> all && !novelty_pass(ids, rec, all).0[m].1,
    decreases ids.len(),
{
    let d = ids.drop_last();
    let sh = novelty_pass(ids, rec, all).0;
    let sh0 = novelty_pass(d, rec, all).0;
    crate::engine::lemma_pass_positions(d, rec, all);
    if j < ids.len() - 1 {
        law_repeated_id_not_novel(d, rec, all, i, j);
        assert forall|m: int| 0 <= m < sh.len() && (#[trigger] sh[m]).0 == j implies all && !sh[m].1 by {
            assert(m < sh0.len());
            assert(sh[m] == sh0[m]);
        }
    } else {
        lemma_pass_grows(d, rec, all);
        assert(d[i] == ids[i]);
        assert forall|m: int| 0 <= m < sh.len() && (#[trigger] sh[m]).0 == j implies all && !sh[m].1 by {
            if m < sh0.len() {
                assert(sh[m] == sh0[m]);
            }
        }
    }
}

proof fn lemma_increasing_floor(p: Seq<usize>, k: int)
    requires
        forall|x: int, y: int| 0 <= x < y < p.len() ==> p[x] < p[y],
        0 <= k < p.len(),
    ensures
        p[k] >= k,
    decreases k,
{
    if k > 0 {
        lemma_increasing_floor(p, k - 1);
    }
}

proof fn lemma_increasing_ceiling(p: Seq<usize>, n: int, k: int)
    requires
        forall|x: int, y: int| 0 <= x < y < p.len() ==> p[x] < p[y],
        forall|x: int| 0 <= x < p.len() ==> p[x] < n,
        p.len() == n,
        0 <= k < p.len(),
    ensures
        p[k] <= k,
    decreases p.len() - k,
{
    if k < p.len() - 1 {
        lemma_increasing_ceiling(p, n, k + 1);
    }
}

/// Ordering: newest first gives non-increasing dates, oldest first
/// non-decreasing ones, the original order keeps every item in place, and
/// items with equal dates keep their relative order.
pub proof fn law_display_order(p: Seq<usize>, keys: Seq<Timestamp>, mode: SortMode)
    requires
        is_display_order(p, keys, mode),
    ensures
        mode == SortMode::Desc ==> forall|x: int, y: int|
            0 <= x < y < p.len() ==> !keys[#[trigger] p[x] as int].before(keys[#[trigger] p[y] as int]),
        mode == SortMode::Asc ==> forall|x: int, y: int|
            0 <= x < y < p.len() ==> !keys[#[trigger] p[y] as int].before(keys[#[trigger] p[x] as int]),
        mode == SortMode::Original ==> forall|k: int| 0 <= k < p.len() ==> p[k] == k,
        forall|x: int, y: int|
            0 <= x < y < p.len() && same_instant(keys[#[trigger] p[x] as int], keys[#[trigger] p[y] as int])
                ==> p[x] < p[y],
{
    assert forall|x: int, y: int| 0 <= x < y < p.len() implies precedes(keys, mode, #[trigger] p[x] as int, #[trigger] p[y] as int) by {}
    if mode == SortMode::Original {
        assert forall|x: int, y: int| 0 <= x < y < p.len() implies p[x] < p[y] by {
            assert(precedes(keys, mode, p[x] as int, p[y] as int));
        }
        assert forall|k: int| 0 <= k < p.len() implies p[k] == k by {
            lemma_increasing_floor(p, k);
            lemma_increasing_ceiling(p, keys.len() as int, k);
        }
    }
}

proof fn lemma_batch_split(a: Seq<RawEntry>, b: Seq<RawEntry>)
    ensures
        kept(a + b) == kept(a) + kept(b),
        errors_of(a + b) == errors_of(a) + errors_of(b),
    decreases b.len(),
{
    if b.len() == 0 {
        assert(a + b =~= a);
        assert(kept(a) + kept(b) =~= kept(a));
        assert(errors_of(a) + errors_of(b) =~= errors_of(a));
    } else {
        lemma_batch_split(a, b.drop_last());
        assert((a + b).drop_last() =~= a + b.drop_last());
        assert((a + b).last() == b.last());
        assert((kept(a) + kept(b.drop_last())).push(b.last()) =~= kept(a) + kept(b.drop_last()).push(b.last()));
        if let Some(e) = entry_error(b.last()) {
            assert((errors_of(a) + errors_of(b.drop_last())).push(e) =~= errors_of(a) + errors_of(
                b.drop_last(),
            ).push(e));
        }
    }
}

/// An entry without a title or without a link is dropped with exactly one
/// error, and the entries around it are normalized as if it were absent.
pub proof fn law_invalid_entry_dropped(before: Seq<RawEntry>, e: RawEntry, after: Seq<RawEntry>)
    requires
        !present(e.title) || !present(e.link),
    ensures
        !present(e.title) ==> entry_error(e) == Some(ValidationError::MissingTitle),
        present(e.title) ==> entry_error(e) == Some(ValidationError::MissingLink),
        kept(before + seq![e] + after) == kept(before) + kept(after),
        errors_of(before + seq![e] + after) == errors_of(before).push(entry_error(e)->0) + errors_of(
            after,
        ),
{
    lemma_batch_split(before + seq![e], after);
    let one = seq![e];
    assert(one.drop_last() =~= Seq::<RawEntry>::empty());
    lemma_batch_split(before, one);
    assert(one.last() == e);
    assert(errors_of(one.drop_last()) =~= Seq::<ValidationError>::empty());
    assert(kept(one) == kept(one.drop_last()));
    assert(kept(before) + kept(one) =~= kept(before));
    assert(errors_of(one) =~= seq![entry_error(e)->0]);
    assert(errors_of(before) + errors_of(one) =~= errors_of(before).push(entry_error(e)->0));
}

} // verus!
